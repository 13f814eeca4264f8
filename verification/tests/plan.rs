use alumina::deps::{holds, passes_touching, Dependencies};
use alumina::error::Error;
use alumina::execute::Execution;
use alumina::flags::DataFlags;
use alumina::graph::{GraphDef, PassRecord};
use alumina::id::{DataID, DataKind, NodeID, PassID};
use alumina::ops::activ::tanh::Tanh;
use alumina::ops::loss::mse::Mse;
use alumina::ops::math::mul::{BackwardSteps, Mul, MulBackward};
use alumina::propagate::GraphShapes;
use alumina::shape::{NodeDim, NodeShape, ShapeFault};
use alumina::error::PassFault;
use alumina::storage::{access, check_access, Access, Slot, Storage};

fn pass(name: &str, reads: Vec<DataID>, writes: Vec<DataID>) -> PassRecord {
    PassRecord { name: name.to_string(), reads, writes }
}

fn ids(indices: &[usize]) -> Vec<PassID> {
    indices.iter().map(|i| PassID { index: *i }).collect()
}

/// input -> tanh -> output, with a mean squared error against target.
fn tanh_graph() -> (GraphDef, NodeID, NodeID, NodeID) {
    let mut g = GraphDef::new();
    let x = g.new_node(NodeShape::fixed(&[7, 5, 16]), "input", vec![]);
    let y = g.new_node(NodeShape::fixed(&[7, 5, 16]), "output", vec![]);
    let t = g.new_node(NodeShape::fixed(&[7, 5, 16]), "target", vec![]);
    g.new_op(Tanh::new(&x, &y), vec![]).unwrap();
    g.new_op(Mse::new(&y, &t), vec![]).unwrap();
    (g, x, y, t)
}

#[test]
fn ids_name_distinct_buffers() {
    let n = NodeID { index: 3 };
    assert_eq!(n.value_id(), DataID { node: n, kind: DataKind::Value });
    assert_eq!(n.gradient_id(), DataID { node: n, kind: DataKind::Gradient });
    assert_ne!(n.value_id(), n.gradient_id());
    assert_eq!(n.gradient_id().node_id(), n);
    assert!(n.value_id().is_value());
    assert!(!n.gradient_id().is_value());
}

#[test]
fn dependencies_list_producers_and_consumers() {
    let (g, x, y, t) = tanh_graph();
    // passes: 0 TanhForward, 1 TanhBackward, 2 MseJoint
    let deps = Dependencies::new(&g);
    assert_eq!(deps.data_inputs(&y.value_id()), &ids(&[0])[..]);
    assert_eq!(deps.data_inputs(&y.gradient_id()), &ids(&[2])[..]);
    assert_eq!(deps.data_inputs(&x.gradient_id()), &ids(&[1])[..]);
    assert_eq!(deps.data_inputs(&t.gradient_id()), &ids(&[2])[..]);
    assert_eq!(deps.data_inputs(&x.value_id()), &ids(&[])[..]);
    assert_eq!(deps.data_outputs(&x.value_id()), &ids(&[0, 1])[..]);
    assert_eq!(deps.data_outputs(&y.value_id()), &ids(&[2])[..]);
    assert_eq!(deps.data_outputs(&y.gradient_id()), &ids(&[1])[..]);
    assert!(deps.is_leaf(&x.value_id()));
    assert!(deps.is_leaf(&t.value_id()));
    assert!(!deps.is_leaf(&y.value_id()));
    // a buffer of a node that the graph does not hold
    let foreign = NodeID { index: 9 }.value_id();
    assert_eq!(deps.data_inputs(&foreign), &ids(&[])[..]);
    assert!(deps.is_leaf(&foreign));
}

#[test]
fn passes_touching_lists_each_pass_once() {
    let d = NodeID { index: 0 }.value_id();
    let e = NodeID { index: 1 }.value_id();
    let table = vec![
        pass("a", vec![d, d], vec![e]),
        pass("b", vec![e], vec![d]),
        pass("c", vec![d, e], vec![]),
    ];
    assert_eq!(passes_touching(&table, &d, false), ids(&[0, 2]));
    assert_eq!(passes_touching(&table, &d, true), ids(&[1]));
    assert!(holds(&table[0].reads, &d));
    assert!(!holds(&table[0].writes, &d));
}

#[test]
fn plan_orders_forward_loss_backward() {
    let (g, x, _y, t) = tanh_graph();
    let plan = g
        .subgraph(&[x.value_id(), t.value_id()], &[x.gradient_id(), t.gradient_id()])
        .unwrap();
    assert_eq!(plan.pass_order(), &ids(&[0, 2, 1]));
    assert_eq!(plan.input_ids(), &vec![x.value_id(), t.value_id()]);
    assert_eq!(plan.output_ids(), &vec![x.gradient_id(), t.gradient_id()]);
}

#[test]
fn plan_leaves_out_passes_that_nothing_needs() {
    let (g, x, y, t) = tanh_graph();
    // only the forward value: neither the loss nor the backward pass runs
    let plan = g.subgraph(&[x.value_id()], &[y.value_id()]).unwrap();
    assert_eq!(plan.pass_order(), &ids(&[0]));
    assert!(plan.is_required(&x.value_id()));
    assert!(plan.is_required(&y.value_id()));
    assert!(!plan.is_required(&t.value_id()));
    assert!(!plan.is_required(&y.gradient_id()));
    // a requested buffer that is given needs no pass at all
    let plan = g.subgraph(&[y.value_id()], &[y.value_id()]).unwrap();
    assert_eq!(plan.pass_order(), &ids(&[]));
    // given data ends the walk: with the output's value given, the forward pass is not needed
    let plan = g.subgraph(&[y.value_id(), t.value_id()], &[t.gradient_id()]).unwrap();
    assert_eq!(plan.pass_order(), &ids(&[2]));
}

#[test]
fn gradient_of_unreachable_node_is_missing_dependency() {
    let (mut g, x, _y, t) = tanh_graph();
    let lonely = g.new_node(NodeShape::fixed(&[3]), "lonely", vec![]);
    let r = g.subgraph(&[x.value_id(), t.value_id()], &[lonely.gradient_id()]);
    assert_eq!(r.err(), Some(Error::MissingDependency { data: lonely.gradient_id() }));
}

#[test]
fn missing_input_is_missing_dependency() {
    let (g, x, _y, t) = tanh_graph();
    // the target's value is neither given nor computed by any pass
    let r = g.subgraph(&[x.value_id()], &[x.gradient_id()]);
    assert_eq!(r.err(), Some(Error::MissingDependency { data: t.value_id() }));
}

#[test]
fn circular_passes_are_missing_dependency() {
    let mut g = GraphDef::new();
    let a = g.new_node(NodeShape::fixed(&[2]), "a", vec![]);
    let b = g.new_node(NodeShape::fixed(&[2]), "b", vec![]);
    g.add_pass(pass("ab", vec![a.value_id()], vec![b.value_id()])).unwrap();
    g.add_pass(pass("ba", vec![b.value_id()], vec![a.value_id()])).unwrap();
    let r = g.subgraph(&[], &[b.value_id()]);
    assert_eq!(r.err(), Some(Error::MissingDependency { data: a.value_id() }));
    // with one of them given the circle is broken
    let plan = g.subgraph(&[a.value_id()], &[b.value_id()]).unwrap();
    assert_eq!(plan.pass_order(), &ids(&[0]));
}

#[test]
fn accumulated_buffer_waits_for_all_its_writers() {
    let mut g = GraphDef::new();
    let a = g.new_node(NodeShape::fixed(&[2]), "a", vec![]);
    let b = g.new_node(NodeShape::fixed(&[2]), "b", vec![]);
    let c = g.new_node(NodeShape::fixed(&[2]), "c", vec![]);
    // pass 0 reads b, which passes 1 and 2 both add to
    g.add_pass(pass("use", vec![b.value_id()], vec![c.value_id()])).unwrap();
    g.add_pass(pass("first", vec![a.value_id()], vec![b.value_id()])).unwrap();
    g.add_pass(pass("second", vec![a.value_id()], vec![b.value_id()])).unwrap();
    let plan = g.subgraph(&[a.value_id()], &[c.value_id()]).unwrap();
    assert_eq!(plan.pass_order(), &ids(&[1, 2, 0]));
}

#[test]
fn handles_of_other_graphs_are_refused() {
    let (g, x, _y, _t) = tanh_graph();
    let foreign = NodeID { index: 17 };
    assert_eq!(
        g.subgraph(&[foreign.value_id()], &[x.gradient_id()]).err(),
        Some(Error::UnknownNode { node: foreign })
    );
    assert_eq!(
        g.subgraph(&[x.value_id()], &[foreign.gradient_id()]).err(),
        Some(Error::UnknownNode { node: foreign })
    );
}

#[test]
fn only_requested_gradient_is_required() {
    let mut g = GraphDef::new();
    let a = g.new_node(NodeShape::fixed(&[7, 5, 16]), "input1", vec![]);
    let b = g.new_node(NodeShape::fixed(&[1, 1, 16]), "input2", vec![]);
    let out = g.new_node(NodeShape::fixed(&[7, 5, 16]), "output", vec![]);
    g.new_op(Mul::new(&a, &b, &out), vec![]).unwrap();
    let given = [a.value_id(), b.value_id(), out.gradient_id()];
    let plan = g.subgraph(&given, &[a.gradient_id()]).unwrap();
    assert_eq!(plan.pass_order(), &ids(&[1]));
    assert!(plan.is_required(&a.gradient_id()));
    assert!(!plan.is_required(&b.gradient_id()));

    let backward = MulBackward::new(a, b, out);
    let steps = backward
        .prepare(PassID { index: 1 }, &plan, &[7, 5, 16], &[1, 1, 16], &[7, 5, 16])
        .unwrap();
    assert_eq!(steps, BackwardSteps { input1: true, input2: false });

    // no buffer is laid out for the gradient that was not asked for
    let shapes = g.resolve_shapes(3).unwrap();
    let storage = Storage::new(&shapes, &plan).unwrap();
    assert_eq!(storage.slot(&b.gradient_id()), Slot::Absent);
    assert!(!storage.is_required(&b.gradient_id()));
    assert_eq!(storage.slot(&a.gradient_id()), Slot::Zeroed { len: 560 });
    assert_eq!(storage.slot(&a.value_id()), Slot::Given { len: 560 });
    assert_eq!(storage.slot(&b.value_id()), Slot::Given { len: 16 });
    assert_eq!(storage.slot(&out.gradient_id()), Slot::Given { len: 560 });
    assert_eq!(storage.slot(&out.value_id()), Slot::Absent);
    assert_eq!(storage.slot(&NodeID { index: 40 }.value_id()), Slot::Absent);
}

#[test]
fn storage_refuses_required_buffer_without_size() {
    let mut g = GraphDef::new();
    let open = NodeShape::new(vec![NodeDim::Known(4), NodeDim::Unknown]).unwrap();
    let a = g.new_node(NodeShape::fixed(&[4, 2]), "a", vec![]);
    let b = g.new_node(open, "b", vec![]);
    g.add_pass(pass("ab", vec![a.value_id()], vec![b.value_id()])).unwrap();
    let plan = g.subgraph(&[a.value_id()], &[b.value_id()]).unwrap();
    let shapes = GraphShapes::new(&g);
    assert_eq!(
        Storage::new(&shapes, &plan).err(),
        Some(Error::ShapeConflict { node: b, op: None, fault: ShapeFault::Unresolved { axis: 1 } })
    );
}

#[test]
fn a_pass_touches_only_what_it_declares() {
    let a = NodeID { index: 0 };
    let b = NodeID { index: 1 };
    let p = pass("p", vec![a.value_id(), b.value_id()], vec![b.value_id(), b.gradient_id()]);
    assert_eq!(access(&p, &a.value_id()), Access::Shared);
    assert_eq!(access(&p, &b.value_id()), Access::Exclusive);
    assert_eq!(access(&p, &b.gradient_id()), Access::Exclusive);
    assert_eq!(access(&p, &a.gradient_id()), Access::Denied);

    let id = PassID { index: 6 };
    let refused = |data| Err(Error::PassError { pass: id, fault: PassFault::Undeclared { data } });
    assert_eq!(check_access(&p, id, &a.value_id(), false), Ok(()));
    assert_eq!(check_access(&p, id, &a.value_id(), true), refused(a.value_id()));
    assert_eq!(check_access(&p, id, &b.value_id(), false), Ok(()));
    assert_eq!(check_access(&p, id, &b.gradient_id(), true), Ok(()));
    assert_eq!(check_access(&p, id, &a.gradient_id(), false), refused(a.gradient_id()));
    assert_eq!(check_access(&p, id, &a.gradient_id(), true), refused(a.gradient_id()));
}

#[test]
fn data_flags_hold_what_was_inserted() {
    let mut flags = DataFlags::new(2);
    let a = NodeID { index: 0 };
    let b = NodeID { index: 1 };
    assert!(!flags.contains(&a.value_id()));
    assert!(flags.insert(&a.value_id()));
    assert!(flags.insert(&b.gradient_id()));
    assert!(flags.contains(&a.value_id()));
    assert!(flags.contains(&b.gradient_id()));
    assert!(!flags.contains(&a.gradient_id()));
    assert!(!flags.insert(&NodeID { index: 2 }.value_id()));
    assert!(!flags.contains(&NodeID { index: 2 }.value_id()));
}

#[test]
fn execution_hands_out_the_passes_in_order() {
    let (g, x, _y, t) = tanh_graph();
    let plan = g
        .subgraph(&[x.value_id(), t.value_id()], &[x.gradient_id(), t.gradient_id()])
        .unwrap();
    let mut run = Execution::new();
    assert!(!run.is_finished(&plan));
    assert_eq!(run.next_pass(&plan), Some(PassID { index: 0 }));
    assert_eq!(run.next_pass(&plan), Some(PassID { index: 2 }));
    assert!(!run.is_finished(&plan));
    assert_eq!(run.next_pass(&plan), Some(PassID { index: 1 }));
    assert!(run.is_finished(&plan));
    assert_eq!(run.next_pass(&plan), None);
    assert_eq!(run.next_pass(&plan), None);
}
