use alumina::deps::Dependencies;
use alumina::error::Error;
use alumina::graph::{GraphDef, NodeTag};
use alumina::id::NodeID;
use alumina::ops::activ::tanh::Tanh;
use alumina::ops::loss::mse::Mse;
use alumina::ops::math::mul::Mul;
use alumina::ops::numeric_check::{
    check_request, choose_fill, fill_sources, has_tag, leaf_nodes, FillSource, TrialTally,
};
use alumina::shape::NodeShape;
use indexmap::IndexMap;

#[test]
fn leaves_are_split_into_inputs_and_parameters() {
    let mut g = GraphDef::new();
    let x = g.new_node(NodeShape::fixed(&[7, 5, 16]), "input", vec![NodeTag::Input]);
    let w = g.new_node(NodeShape::fixed(&[1, 1, 16]), "weights", vec![NodeTag::Parameter]);
    let y = g.new_node(NodeShape::fixed(&[7, 5, 16]), "scaled", vec![]);
    let z = g.new_node(NodeShape::fixed(&[7, 5, 16]), "output", vec![NodeTag::Output]);
    let t = g.new_node(NodeShape::fixed(&[7, 5, 16]), "target", vec![]);
    g.new_op(Mul::new(&x, &w, &y), vec![]).unwrap();
    g.new_op(Tanh::new(&y, &z), vec![]).unwrap();
    g.new_op(Mse::new(&z, &t), vec![]).unwrap();
    let deps = Dependencies::new(&g);
    let (inputs, parameters) = leaf_nodes(&g, &deps);
    assert_eq!(inputs, vec![x, t]);
    assert_eq!(parameters, vec![w]);
    let (given, requested) = check_request(&inputs, &parameters);
    assert_eq!(given, vec![x.value_id(), t.value_id(), w.value_id()]);
    assert_eq!(requested, vec![x.gradient_id(), t.gradient_id(), w.gradient_id()]);
    assert!(g.subgraph(&given, &requested).is_ok());
}

#[test]
fn tags_are_found() {
    let tags = vec![NodeTag::Input, NodeTag::Parameter];
    assert!(has_tag(&tags, NodeTag::Parameter));
    assert!(!has_tag(&tags, NodeTag::Output));
    assert!(!has_tag(&vec![], NodeTag::Input));
}

#[test]
fn tally_counts_failures_against_the_budget() {
    let mut tally = TrialTally::new();
    assert_eq!(tally.verdict(0), Ok(()));
    tally.record(false, false);
    tally.record(true, false);
    tally.record(false, true);
    tally.record(false, true);
    assert_eq!(tally, TrialTally { trials: 4, param_failures: 1, input_failures: 2 });
    assert_eq!(tally.verdict(2), Ok(()));
    assert_eq!(
        tally.verdict(1),
        Err(Error::NumericCheckFailure { param_failures: 1, input_failures: 2 })
    );
    assert_eq!(
        tally.verdict(0),
        Err(Error::NumericCheckFailure { param_failures: 1, input_failures: 2 })
    );
}

#[test]
fn tally_stays_at_the_largest_count() {
    let mut tally = TrialTally { trials: usize::MAX, param_failures: usize::MAX, input_failures: 5 };
    tally.record(true, true);
    assert_eq!(
        tally,
        TrialTally { trials: usize::MAX, param_failures: usize::MAX, input_failures: 6 }
    );
}

#[test]
fn overrides_select_the_fill_source() {
    let mut overrides: IndexMap<usize, usize> = IndexMap::new();
    overrides.insert(2, 0);
    overrides.insert(0, 1);
    let nodes = [NodeID { index: 0 }, NodeID { index: 1 }, NodeID { index: 2 }];
    assert_eq!(
        fill_sources(&nodes, &overrides),
        vec![
            FillSource::Override { slot: 1 },
            FillSource::Normal,
            FillSource::Override { slot: 0 },
        ]
    );
    assert_eq!(fill_sources(&nodes, &IndexMap::new()), vec![FillSource::Normal; 3]);
    assert_eq!(choose_fill(Some(4)), FillSource::Override { slot: 4 });
    assert_eq!(choose_fill(None), FillSource::Normal);
}
