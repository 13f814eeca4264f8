use alumina::deps::Dependencies;
use alumina::error::{Error, PassFault};
use alumina::execute::Execution;
use alumina::graph::{GraphDef, NodeTag, OpTag, ShapeRule};
use alumina::id::{DataID, NodeID, OpID, PassID};
use alumina::ops::activ::tanh::Tanh;
use alumina::ops::broadcast::{Broadcast, BroadcastInstance};
use alumina::ops::loss::mse::{Mse, MseInstance};
use alumina::ops::math::mul::{Mul, MulBackward, MulForward};
use alumina::ops::math::repeat::RepeatMap;
use alumina::ops::numeric_check::{check_request, leaf_nodes, TrialTally};
use alumina::propagate::GraphShapes;
use alumina::shape::{NodeShape, ShapeFault};
use alumina::storage::check_access;
use alumina::subgraph::Subgraph;
use rand::distributions::{Distribution, Normal};
use rand::thread_rng;
use std::collections::HashMap;

/// What a pass computes, for the passes of the operations used here.
enum Kernel {
    MulForward(MulForward),
    MulBackward(MulBackward),
    TanhForward { input: NodeID, output: NodeID },
    /// `output += input`: a forward pass whose gradient is not that of the tanh.
    Linear { input: NodeID, output: NodeID },
    TanhBackward { input: NodeID, output: NodeID },
    Mse(MseInstance),
    BroadcastForward(BroadcastInstance),
    BroadcastBackward(BroadcastInstance),
}

/// A graph with the kernel of each of its passes, by the pass's handle.
struct Model {
    graph: GraphDef,
    kernels: Vec<Kernel>,
}

impl Model {
    fn new() -> Model {
        Model { graph: GraphDef::new(), kernels: Vec::new() }
    }

    fn mul(&mut self, a: &NodeID, b: &NodeID, out: &NodeID) -> Result<OpID, Error> {
        let id = self.graph.new_op(Mul::new(a, b, out), vec![])?;
        self.kernels.push(Kernel::MulForward(MulForward::new(*a, *b, *out)));
        self.kernels.push(Kernel::MulBackward(MulBackward::new(*a, *b, *out)));
        Ok(id)
    }

    fn tanh(&mut self, input: &NodeID, output: &NodeID) -> Result<OpID, Error> {
        let id = self.graph.new_op(Tanh::new(input, output), vec![])?;
        self.kernels.push(Kernel::TanhForward { input: *input, output: *output });
        self.kernels.push(Kernel::TanhBackward { input: *input, output: *output });
        Ok(id)
    }

    fn mse(&mut self, a: &NodeID, b: &NodeID) -> Result<OpID, Error> {
        let id = self.graph.new_op(Mse::new(a, b), vec![OpTag::Loss])?;
        let op = self.graph.op(&id).unwrap();
        let pass_id = op.passes[0];
        self.kernels.push(Kernel::Mse(MseInstance {
            name: op.name.clone(),
            input1_id: *a,
            input2_id: *b,
            pass_id,
        }));
        Ok(id)
    }

    fn broadcast(&mut self, input: &NodeID, output: &NodeID, name: &str) -> Result<OpID, Error> {
        let id = self.graph.new_op(*Broadcast::new(input, output, name), vec![])?;
        let op = self.graph.op(&id).unwrap();
        let channels = match op.rule {
            ShapeRule::Channels { channels, .. } => channels,
            _ => unreachable!(),
        };
        let inst = BroadcastInstance {
            name: op.name.clone(),
            op_id: id,
            input_id: *input,
            output_id: *output,
            output_channels: channels,
            forward_id: op.passes[0],
            backward_id: op.passes[1],
        };
        self.kernels.push(Kernel::BroadcastForward(inst.clone()));
        self.kernels.push(Kernel::BroadcastBackward(inst));
        Ok(id)
    }
}

fn extents_of(shapes: &GraphShapes, node: &NodeID) -> Vec<usize> {
    shapes.get_shape(node).unwrap().to_data_shape().unwrap()
}

fn size_of(shapes: &GraphShapes, node: &NodeID) -> usize {
    shapes.get_shape(node).unwrap().flat_size().unwrap()
}

/// Runs the passes of a plan over buffers of `f32`: the given buffers are
/// taken as they are, every other required buffer starts at zero. Returns the
/// requested buffers and the loss.
fn execute(
    model: &Model,
    shapes: &GraphShapes,
    plan: &Subgraph,
    given: &HashMap<DataID, Vec<f32>>,
) -> Result<(HashMap<DataID, Vec<f32>>, f32), Error> {
    let mut store: HashMap<DataID, Vec<f32>> = given.clone();
    for node in model.graph.get_nodes() {
        for d in [node.value_id(), node.gradient_id()] {
            if plan.is_required(&d) && !store.contains_key(&d) {
                store.insert(d, vec![0.0; size_of(shapes, &node)]);
            }
        }
    }
    let mut loss = 0.0f64;
    let mut progress = Execution::new();
    while let Some(next) = progress.next_pass(plan) {
        let pass = &next;
        let record = model.graph.pass(pass).unwrap();
        // every pass is held to the buffers that it has declared
        let allow = |read: &[DataID], written: &[DataID]| -> Result<(), Error> {
            for d in read {
                check_access(record, *pass, d, false)?;
            }
            for d in written {
                check_access(record, *pass, d, true)?;
            }
            Ok(())
        };
        match &model.kernels[pass.index] {
            Kernel::MulForward(k) => {
                let e1 = extents_of(shapes, &k.input1_id);
                let e2 = extents_of(shapes, &k.input2_id);
                let eo = extents_of(shapes, &k.output_id);
                k.prepare(*pass, &e1, &e2, &eo)?;
                allow(
                    &[k.input1_id.value_id(), k.input2_id.value_id()],
                    &[k.output_id.value_id()],
                )?;
                let a = store[&k.input1_id.value_id()].clone();
                let b = store[&k.input2_id.value_id()].clone();
                let out = store.get_mut(&k.output_id.value_id()).unwrap();
                let map = RepeatMap::new(&e2, &e1).unwrap();
                for i in 0..out.len() {
                    out[i] += a[i] * b[map.source(i).unwrap()];
                }
            }
            Kernel::MulBackward(k) => {
                let e1 = extents_of(shapes, &k.input1_id);
                let e2 = extents_of(shapes, &k.input2_id);
                let eg = extents_of(shapes, &k.output_id);
                let steps = k.prepare(*pass, plan, &e1, &e2, &eg)?;
                allow(
                    &[k.input1_id.value_id(), k.input2_id.value_id(), k.output_id.gradient_id()],
                    &[k.input1_id.gradient_id(), k.input2_id.gradient_id()],
                )?;
                let a = store[&k.input1_id.value_id()].clone();
                let b = store[&k.input2_id.value_id()].clone();
                let og = store[&k.output_id.gradient_id()].clone();
                let map = RepeatMap::new(&e2, &e1).unwrap();
                if steps.input1 {
                    let g1 = store.get_mut(&k.input1_id.gradient_id()).unwrap();
                    for i in 0..g1.len() {
                        g1[i] += b[map.source(i).unwrap()] * og[i];
                    }
                }
                if steps.input2 {
                    let g2 = store.get_mut(&k.input2_id.gradient_id()).unwrap();
                    for i in 0..og.len() {
                        g2[map.source(i).unwrap()] += a[i] * og[i];
                    }
                }
            }
            Kernel::TanhForward { input, output } => {
                allow(&[input.value_id()], &[output.value_id()])?;
                let a = store[&input.value_id()].clone();
                let out = store.get_mut(&output.value_id()).unwrap();
                assert_eq!(a.len(), out.len());
                for i in 0..out.len() {
                    out[i] += a[i].tanh();
                }
            }
            Kernel::Linear { input, output } => {
                allow(&[input.value_id()], &[output.value_id()])?;
                let a = store[&input.value_id()].clone();
                let out = store.get_mut(&output.value_id()).unwrap();
                for i in 0..out.len() {
                    out[i] += a[i];
                }
            }
            Kernel::TanhBackward { input, output } => {
                if plan.is_required(&input.gradient_id()) {
                    allow(&[input.value_id(), output.gradient_id()], &[input.gradient_id()])?;
                    let a = store[&input.value_id()].clone();
                    let og = store[&output.gradient_id()].clone();
                    let g = store.get_mut(&input.gradient_id()).unwrap();
                    for i in 0..g.len() {
                        let s = a[i].cosh();
                        g[i] += og[i] / (s * s);
                    }
                }
            }
            Kernel::Mse(k) => {
                let e1 = extents_of(shapes, &k.input1_id);
                let e2 = extents_of(shapes, &k.input2_id);
                let steps = k.prepare(*pass, plan, &e1, &e2)?;
                allow(
                    &[k.input1_id.value_id(), k.input2_id.value_id()],
                    &[k.input1_id.gradient_id(), k.input2_id.gradient_id()],
                )?;
                let a = store[&k.input1_id.value_id()].clone();
                let b = store[&k.input2_id.value_id()].clone();
                let n = a.len() as f32;
                for i in 0..a.len() {
                    let diff = (a[i] - b[i]) as f64;
                    loss += diff * diff / n as f64;
                }
                if steps.input1 {
                    let g1 = store.get_mut(&k.input1_id.gradient_id()).unwrap();
                    for i in 0..g1.len() {
                        g1[i] += 2.0 * (a[i] - b[i]) / n;
                    }
                }
                if steps.input2 {
                    let g2 = store.get_mut(&k.input2_id.gradient_id()).unwrap();
                    for i in 0..g2.len() {
                        g2[i] += -2.0 * (a[i] - b[i]) / n;
                    }
                }
            }
            Kernel::BroadcastForward(k) => {
                let input = k.input_id.value_id();
                let output = k.output_id.value_id();
                allow(&[input], &[output])?;
                let a = store[&input].clone();
                let out = store.get_mut(&output).unwrap();
                k.prepare(*pass, input, output, a.len(), out.len())?;
                for i in 0..out.len() {
                    out[i] += a[k.source_index(i).unwrap()];
                }
            }
            Kernel::BroadcastBackward(k) => {
                let input = k.input_id.gradient_id();
                let output = k.output_id.gradient_id();
                if plan.is_required(&input) {
                    allow(&[output], &[input])?;
                    let og = store[&output].clone();
                    let g = store.get_mut(&input).unwrap();
                    k.prepare(*pass, input, output, g.len(), og.len())?;
                    for i in 0..og.len() {
                        g[k.source_index(i).unwrap()] += og[i];
                    }
                }
            }
        }
    }
    assert!(progress.is_finished(plan));
    let mut results = HashMap::new();
    for d in plan.output_ids() {
        results.insert(*d, store[d].clone());
    }
    Ok((results, loss as f32))
}

#[allow(deprecated)]
fn normal_fill(v: &mut [f32], mean: f32, std_dev: f32) {
    let rng = &mut thread_rng();
    let norm = Normal::new(mean as f64, std_dev as f64);
    for x in v {
        *x = norm.sample(rng) as f32;
    }
}

fn generate_input_data(shapes: &GraphShapes, node_ids: &[NodeID], variance: f32) -> Vec<Vec<f32>> {
    node_ids
        .iter()
        .map(|node| {
            let mut data = vec![0.0; size_of(shapes, node)];
            normal_fill(&mut data, 0.0, variance.sqrt());
            data
        })
        .collect()
}

/// A step of size `step_size` against and along the gradient.
fn step(
    step_size: f32,
    node_ids: &[NodeID],
    data: &[Vec<f32>],
    results: &HashMap<DataID, Vec<f32>>,
) -> (Vec<Vec<f32>>, Vec<Vec<f32>>, f32) {
    let grad_dot: f32 = node_ids
        .iter()
        .map(|node| results[&node.gradient_id()].iter().fold(0.0, |acc, d| acc + d * d))
        .sum();
    let norm = grad_dot.sqrt();
    let moved = |scale: f32| -> Vec<Vec<f32>> {
        data.iter()
            .zip(node_ids)
            .map(|(values, node)| {
                let grad = &results[&node.gradient_id()];
                values.iter().zip(grad).map(|(x, g)| x + scale * g).collect()
            })
            .collect()
    };
    (moved(-step_size / norm), moved(step_size / norm), norm)
}

fn bind(ids: &[NodeID], data: &[Vec<f32>], into: &mut HashMap<DataID, Vec<f32>>) {
    for (node, values) in ids.iter().zip(data) {
        into.insert(node.value_id(), values.clone());
    }
}

fn relative_error(step_size: f32, grad_norm: f32, loss_1: f32, loss_2: f32) -> f32 {
    let expected_diff = 2.0 * step_size * grad_norm;
    let diff = loss_2 - loss_1;
    let err = expected_diff - diff;
    err.abs() / diff.abs().max(expected_diff.abs())
}

/// The relative error of the gradients with respect to parameters and inputs.
fn numeric_error(model: &Model, step_size: f32, variance: f32) -> Result<(f32, f32), Error> {
    let graph = &model.graph;
    let deps = Dependencies::new(graph);
    let (input_ids, parameter_ids) = leaf_nodes(graph, &deps);
    let (given, requested) = check_request(&input_ids, &parameter_ids);
    let shapes = graph.resolve_shapes(graph.op_count() + 2)?;

    let inputs_0 = generate_input_data(&shapes, &input_ids, variance);
    let params_0 = generate_input_data(&shapes, &parameter_ids, variance);
    let plan = graph.subgraph(&given, &requested)?;
    let run = |inputs: &[Vec<f32>], params: &[Vec<f32>]| {
        let mut data = HashMap::new();
        bind(&input_ids, inputs, &mut data);
        bind(&parameter_ids, params, &mut data);
        execute(model, &shapes, &plan, &data)
    };
    let (output_0, _) = run(&inputs_0, &params_0)?;

    let mut param_err = 0.0;
    if !parameter_ids.is_empty() {
        let (params_1, params_2, grad_norm) = step(step_size, &parameter_ids, &params_0, &output_0);
        let loss_1 = run(&inputs_0, &params_1)?.1;
        let loss_2 = run(&inputs_0, &params_2)?.1;
        param_err = relative_error(step_size, grad_norm, loss_1, loss_2);
    }
    let mut input_err = 0.0;
    if !input_ids.is_empty() {
        let (inputs_1, inputs_2, grad_norm) = step(step_size, &input_ids, &inputs_0, &output_0);
        let loss_1 = run(&inputs_1, &params_0)?.1;
        let loss_2 = run(&inputs_2, &params_0)?.1;
        input_err = relative_error(step_size, grad_norm, loss_1, loss_2);
    }
    Ok((param_err, input_err))
}

fn numeric_test(
    iters: usize,
    failures: usize,
    tolerance: f32,
    model: &Model,
    step_size: f32,
    default_variance: f32,
) -> Result<(), Error> {
    let mut tally = TrialTally::new();
    for _ in 0..iters {
        let (param_err, input_err) = numeric_error(model, step_size, default_variance)?;
        tally.record(
            param_err > tolerance || param_err.is_nan(),
            input_err > tolerance || input_err.is_nan(),
        );
    }
    tally.verdict(failures)
}

/// One trial with the given variance and step, to a tolerance of 0.002.
fn test_numeric(model: &Model, variance: f32, step_size: f32) -> Result<(), Error> {
    numeric_test(1, 0, 0.002, model, step_size, variance)
}

/// The shape of a node with `channels` channels at each point of a grid.
fn sized(channels: usize, spatial: &[usize]) -> NodeShape {
    let mut extents = spatial.to_vec();
    extents.push(channels);
    NodeShape::fixed(&extents)
}

#[test]
fn test_tanh_backprop() {
    _tanh_backprop().unwrap();
}

fn _tanh_backprop() -> Result<(), Error> {
    let mut m = Model::new();

    let node1 = m.graph.new_node(NodeShape::fixed(&[7, 5, 16]), "input", vec![]);
    let node2 = m.graph.new_node(NodeShape::fixed(&[7, 5, 16]), "output", vec![]);
    let node3 = m.graph.new_node(NodeShape::fixed(&[7, 5, 16]), "target", vec![]);

    let _o1 = m.tanh(&node1, &node2)?;
    let _o2 = m.mse(&node2, &node3)?;

    let iters = 100;
    let failures = 1;
    let tolerance = 0.002;
    let step_size = 1E-2;
    let default_variance = 1.0;
    numeric_test(iters, failures, tolerance, &m, step_size, default_variance)?;

    Ok(())
}

#[test]
fn test_mul_backprop() {
    _mul_backprop().unwrap();
}

fn _mul_backprop() -> Result<(), Error> {
    let mut m = Model::new();

    let node1 = m.graph.new_node(NodeShape::fixed(&[7, 5, 16]), "input1", vec![]);
    let node2 = m.graph.new_node(NodeShape::fixed(&[1, 1, 16]), "input2", vec![]);
    let node3 = m.graph.new_node(NodeShape::fixed(&[7, 5, 16]), "output", vec![]);
    let node4 = m.graph.new_node(NodeShape::fixed(&[7, 5, 16]), "target", vec![]);

    let _o1 = m.mul(&node1, &node2, &node3)?;
    let _o2 = m.mse(&node3, &node4)?;

    let iters = 100;
    let failures = 1;
    let tolerance = 0.001;
    let step_size = 1E-2;
    let default_variance = 1.0;
    numeric_test(iters, failures, tolerance, &m, step_size, default_variance)?;

    Ok(())
}

#[test]
fn test_broadcast_backprop() {
    for _ in 1..20 {
        let mut m = Model::new();

        let n1 = m.graph.new_node(sized(5, &[13, 17]), "nodein", vec![NodeTag::Input]);
        let n2 = m.graph.new_node(sized(7, &[13, 17]), "nodeout", vec![NodeTag::Output]);
        let n3 = m.graph.new_node(sized(7, &[13, 17]), "nodetrain", vec![NodeTag::Input]);

        let broadcast = m.broadcast(&n1, &n2, "Broadcast").unwrap();
        m.mse(&n2, &n3).unwrap();

        // The input holds 5 * 13 * 17 elements where the output has 7
        // channels: the shapes cannot be resolved, and nothing is computed.
        assert_eq!(
            test_numeric(&m, 1.0, 1e-1),
            Err(Error::ShapeConflict {
                node: n1,
                op: Some(broadcast),
                fault: ShapeFault::SizeMismatch { expected: 7, found: 5 * 13 * 17 },
            })
        );
    }
}

#[test]
fn broadcast_backprop_with_matching_sizes() {
    for _ in 1..20 {
        let mut m = Model::new();
        let n1 = m.graph.new_node(NodeShape::fixed(&[7]), "nodein", vec![NodeTag::Input]);
        let n2 = m.graph.new_node(sized(7, &[13, 17]), "nodeout", vec![NodeTag::Output]);
        let n3 = m.graph.new_node(sized(7, &[13, 17]), "nodetrain", vec![NodeTag::Input]);
        m.broadcast(&n1, &n2, "Broadcast").unwrap();
        m.mse(&n2, &n3).unwrap();
        assert_eq!(test_numeric(&m, 1.0, 1e-1), Ok(()));
    }
}

#[test]
fn mul_backward_sums_over_repeated_positions() {
    let mut m = Model::new();
    let a = m.graph.new_node(NodeShape::fixed(&[2, 3]), "input1", vec![]);
    let b = m.graph.new_node(NodeShape::fixed(&[1, 3]), "input2", vec![]);
    let out = m.graph.new_node(NodeShape::fixed(&[2, 3]), "output", vec![]);
    m.mul(&a, &b, &out).unwrap();
    let shapes = m.graph.resolve_shapes(4).unwrap();
    let given_ids = [a.value_id(), b.value_id(), out.gradient_id()];
    let plan = m.graph.subgraph(&given_ids, &[a.gradient_id(), b.gradient_id()]).unwrap();
    assert_eq!(plan.pass_order(), &vec![PassID { index: 1 }]);

    let mut given = HashMap::new();
    given.insert(a.value_id(), vec![1.0, 2.0, 3.0, 4.0, 5.0, 6.0]);
    given.insert(b.value_id(), vec![10.0, 20.0, 30.0]);
    given.insert(out.gradient_id(), vec![1.0, 1.0, 1.0, 2.0, 2.0, 2.0]);
    let (results, _) = execute(&m, &shapes, &plan, &given).unwrap();
    // input1's gradient is input2 * output_grad, element by element
    assert_eq!(results[&a.gradient_id()], vec![10.0, 20.0, 30.0, 20.0, 40.0, 60.0]);
    // input2's gradient is the sum over the positions it was repeated to
    assert_eq!(results[&b.gradient_id()], vec![1.0 + 8.0, 2.0 + 10.0, 3.0 + 12.0]);
}

#[test]
fn execute_twice_gives_identical_outputs() {
    let mut m = Model::new();
    let x = m.graph.new_node(NodeShape::fixed(&[4, 3]), "input", vec![]);
    let y = m.graph.new_node(NodeShape::fixed(&[4, 3]), "output", vec![]);
    let t = m.graph.new_node(NodeShape::fixed(&[4, 3]), "target", vec![]);
    m.tanh(&x, &y).unwrap();
    m.mse(&y, &t).unwrap();
    let shapes = m.graph.resolve_shapes(4).unwrap();
    let plan = m
        .graph
        .subgraph(&[x.value_id(), t.value_id()], &[x.gradient_id(), y.value_id()])
        .unwrap();
    let mut given = HashMap::new();
    given.insert(x.value_id(), (0..12).map(|i| i as f32 * 0.1 - 0.5).collect::<Vec<f32>>());
    given.insert(t.value_id(), vec![0.25; 12]);
    let first = execute(&m, &shapes, &plan, &given).unwrap();
    let second = execute(&m, &shapes, &plan, &given).unwrap();
    assert_eq!(first.1.to_bits(), second.1.to_bits());
    for d in plan.output_ids() {
        let a: Vec<u32> = first.0[d].iter().map(|v| v.to_bits()).collect();
        let b: Vec<u32> = second.0[d].iter().map(|v| v.to_bits()).collect();
        assert_eq!(a, b);
    }
}

#[test]
fn mul_pass_refuses_mismatched_buffers() {
    let k = MulForward::new(NodeID { index: 0 }, NodeID { index: 1 }, NodeID { index: 2 });
    let pass = PassID { index: 4 };
    assert_eq!(k.prepare(pass, &[7, 5, 16], &[1, 1, 16], &[7, 5, 16]), Ok(()));
    assert_eq!(
        k.prepare(pass, &[7, 5, 16], &[1, 1, 16], &[7, 5, 8]),
        Err(Error::PassError {
            pass,
            fault: PassFault::ShapeMismatch {
                left: NodeID { index: 0 }.value_id(),
                right: NodeID { index: 2 }.value_id(),
            },
        })
    );
    assert_eq!(
        k.prepare(pass, &[7, 5, 16], &[1, 2, 16], &[7, 5, 16]),
        Err(Error::PassError {
            pass,
            fault: PassFault::NotBroadcastable {
                from: NodeID { index: 1 }.value_id(),
                to: NodeID { index: 0 }.value_id(),
            },
        })
    );
}

#[test]
fn every_built_in_operation_passes_the_numeric_check() {
    let iters = 100;
    let failures = 1;
    let tolerance = 0.002;
    let step_size = 1E-2;
    let default_variance = 1.0;

    let mut tanh = Model::new();
    let x = tanh.graph.new_node(NodeShape::fixed(&[7, 5, 16]), "input", vec![]);
    let y = tanh.graph.new_node(NodeShape::fixed(&[7, 5, 16]), "output", vec![]);
    let t = tanh.graph.new_node(NodeShape::fixed(&[7, 5, 16]), "target", vec![]);
    tanh.tanh(&x, &y).unwrap();
    tanh.mse(&y, &t).unwrap();

    let mut mul = Model::new();
    let a = mul.graph.new_node(NodeShape::fixed(&[7, 5, 16]), "input1", vec![]);
    let b = mul.graph.new_node(NodeShape::fixed(&[1, 1, 16]), "input2", vec![NodeTag::Parameter]);
    let c = mul.graph.new_node(NodeShape::fixed(&[7, 5, 16]), "output", vec![]);
    let d = mul.graph.new_node(NodeShape::fixed(&[7, 5, 16]), "target", vec![]);
    mul.mul(&a, &b, &c).unwrap();
    mul.mse(&c, &d).unwrap();

    let mut broadcast = Model::new();
    let n1 = broadcast.graph.new_node(NodeShape::fixed(&[7]), "nodein", vec![]);
    let n2 = broadcast.graph.new_node(sized(7, &[13, 17]), "nodeout", vec![]);
    let n3 = broadcast.graph.new_node(sized(7, &[13, 17]), "nodetrain", vec![]);
    broadcast.broadcast(&n1, &n2, "Broadcast").unwrap();
    broadcast.mse(&n2, &n3).unwrap();

    for model in [&tanh, &mul, &broadcast] {
        assert_eq!(
            numeric_test(iters, failures, tolerance, model, step_size, default_variance),
            Ok(())
        );
    }
}

#[test]
fn a_wrong_gradient_fails_the_numeric_check() {
    // The loss is computed against the target, the gradient against zero: the two disagree.
    let mut m = Model::new();
    let x = m.graph.new_node(NodeShape::fixed(&[4, 3]), "input", vec![]);
    let y = m.graph.new_node(NodeShape::fixed(&[4, 3]), "output", vec![]);
    let t = m.graph.new_node(NodeShape::fixed(&[4, 3]), "target", vec![]);
    m.tanh(&x, &y).unwrap();
    m.mse(&y, &t).unwrap();
    // swap the kernel of the forward pass for one that computes the wrong function
    m.kernels[0] = Kernel::Linear { input: x, output: y };
    let outcome = numeric_test(20, 1, 0.002, &m, 1E-2, 1.0);
    assert!(matches!(outcome, Err(Error::NumericCheckFailure { .. })));
}

#[test]
fn a_pass_that_reaches_for_an_undeclared_buffer_is_stopped() {
    let mut m = Model::new();
    let x = m.graph.new_node(NodeShape::fixed(&[4, 3]), "input", vec![]);
    let y = m.graph.new_node(NodeShape::fixed(&[4, 3]), "output", vec![]);
    let t = m.graph.new_node(NodeShape::fixed(&[4, 3]), "target", vec![]);
    m.tanh(&x, &y).unwrap();
    m.mse(&y, &t).unwrap();
    // the backward pass of the tanh is made to write the target's gradient
    m.kernels[1] = Kernel::TanhBackward { input: t, output: y };
    let outcome = numeric_test(1, 0, 0.002, &m, 1E-2, 1.0);
    assert_eq!(
        outcome,
        Err(Error::PassError {
            pass: PassID { index: 1 },
            fault: PassFault::Undeclared { data: t.value_id() },
        })
    );
}
