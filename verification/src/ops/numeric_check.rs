//! The bookkeeping of a numeric check of gradients: which nodes are sampled,
//! which buffers a trial gives and asks for, and how trials are counted.

use crate::deps::Dependencies;
use crate::error::Error;
use crate::graph::{GraphDef, Node, NodeTag};
use crate::id::{DataID, DataKind, NodeID};
use indexmap::IndexMap;
use vstd::prelude::*;

verus! {

/// Whether a list of tags holds a given one.
pub fn has_tag(tags: &Vec<NodeTag>, tag: NodeTag) -> (b: bool)
    ensures
        b == tags@.contains(tag),
{
    let mut i: usize = 0;
    while i < tags.len()
        invariant
            i <= tags.len(),
            forall|k: int| 0 <= k < i ==> tags@[k] != tag,
        decreases tags.len() - i,
    {
        if tags[i] == tag {
            return true;
        }
        i += 1;
    }
    false
}

/// Whether node `i` is a leaf of the given kind: no pass writes its value,
/// and it is tagged as a parameter (`parameter`) or is not (`!parameter`).
pub open spec fn is_leaf_of_kind(
    nodes: Seq<Node>,
    deps: &Dependencies,
    i: int,
    parameter: bool,
) -> bool {
    &&& 0 <= i < nodes.len()
    &&& deps.producers(DataID { node: NodeID { index: i as usize }, kind: DataKind::Value }).len()
        == 0
    &&& nodes[i].tags@.contains(NodeTag::Parameter) == parameter
}

/// Whether `ids` lists, in ascending order and each once, exactly the leaves
/// of the given kind.
pub open spec fn lists_leaves(
    ids: Seq<NodeID>,
    nodes: Seq<Node>,
    deps: &Dependencies,
    parameter: bool,
) -> bool {
    &&& forall|a: int, b: int| 0 <= a < b < ids.len() ==> ids[a].index < ids[b].index
    &&& forall|k: int|
        0 <= k < ids.len() ==> is_leaf_of_kind(nodes, deps, (#[trigger] ids[k]).index as int, parameter)
    &&& forall|i: int| #[trigger]
        is_leaf_of_kind(nodes, deps, i, parameter) ==> ids.contains(NodeID { index: i as usize })
}

/// The leaves of the graph: the nodes whose value no pass writes, so that it
/// must come from outside. Returns those that are not tagged as parameters,
/// the inputs, and those that are, each list in ascending order.
pub fn leaf_nodes(graph: &GraphDef, deps: &Dependencies) -> (r: (Vec<NodeID>, Vec<NodeID>))
    ensures
        lists_leaves(r.0@, graph.nodes(), deps, false),
        lists_leaves(r.1@, graph.nodes(), deps, true),
{
    let nodes = graph.node_table();
    let mut inputs: Vec<NodeID> = Vec::new();
    let mut parameters: Vec<NodeID> = Vec::new();
    let mut i: usize = 0;
    while i < nodes.len()
        invariant
            i <= nodes.len(),
            nodes@ == graph.nodes(),
            forall|a: int, b: int| 0 <= a < b < inputs@.len() ==> inputs@[a].index < inputs@[b].index,
            forall|a: int, b: int|
                0 <= a < b < parameters@.len() ==> parameters@[a].index < parameters@[b].index,
            forall|k: int|
                0 <= k < inputs@.len() ==> (#[trigger] inputs@[k]).index < i && is_leaf_of_kind(
                    nodes@,
                    deps,
                    inputs@[k].index as int,
                    false,
                ),
            forall|k: int|
                0 <= k < parameters@.len() ==> (#[trigger] parameters@[k]).index < i
                    && is_leaf_of_kind(nodes@, deps, parameters@[k].index as int, true),
            forall|j: int|
                0 <= j < i && #[trigger] is_leaf_of_kind(nodes@, deps, j, false)
                    ==> inputs@.contains(NodeID { index: j as usize }),
            forall|j: int|
                0 <= j < i && #[trigger] is_leaf_of_kind(nodes@, deps, j, true)
                    ==> parameters@.contains(NodeID { index: j as usize }),
        decreases nodes.len() - i,
    {
        let node = NodeID { index: i };
        let ghost inputs_before = inputs@;
        let ghost parameters_before = parameters@;
        if deps.is_leaf(&node.value_id()) {
            if has_tag(&nodes[i].tags, NodeTag::Parameter) {
                parameters.push(node);
                assert(parameters@[parameters_before.len() as int] == node);
            } else {
                inputs.push(node);
                assert(inputs@[inputs_before.len() as int] == node);
            }
        }
        proof {
            assert forall|j: int|
                0 <= j < i + 1 && #[trigger] is_leaf_of_kind(
                    nodes@,
                    deps,
                    j,
                    false,
                ) implies inputs@.contains(NodeID { index: j as usize }) by {
                if j < i {
                    let k = choose|k: int|
                        0 <= k < inputs_before.len() && inputs_before[k] == (NodeID {
                            index: j as usize,
                        });
                    assert(inputs@[k] == NodeID { index: j as usize });
                }
            }
            assert forall|j: int|
                0 <= j < i + 1 && #[trigger] is_leaf_of_kind(
                    nodes@,
                    deps,
                    j,
                    true,
                ) implies parameters@.contains(NodeID { index: j as usize }) by {
                if j < i {
                    let k = choose|k: int|
                        0 <= k < parameters_before.len() && parameters_before[k] == (NodeID {
                            index: j as usize,
                        });
                    assert(parameters@[k] == NodeID { index: j as usize });
                }
            }
        }
        i += 1;
    }
    (inputs, parameters)
}

/// The buffers of the given kind of a list of nodes, in the order of the list.
pub open spec fn data_of(ids: Seq<NodeID>, kind: DataKind) -> Seq<DataID> {
    Seq::new(ids.len(), |i: int| DataID { node: ids[i], kind })
}

/// What one trial gives and asks for: the values of the inputs followed by
/// those of the parameters, and their gradients in the same order.
pub fn check_request(input_ids: &[NodeID], parameter_ids: &[NodeID]) -> (r: (
    Vec<DataID>,
    Vec<DataID>,
))
    ensures
        r.0@ == data_of(input_ids@ + parameter_ids@, DataKind::Value),
        r.1@ == data_of(input_ids@ + parameter_ids@, DataKind::Gradient),
{
    let ghost all = input_ids@ + parameter_ids@;
    let mut values: Vec<DataID> = Vec::new();
    let mut gradients: Vec<DataID> = Vec::new();
    let mut i: usize = 0;
    while i < input_ids.len()
        invariant
            i <= input_ids.len(),
            all == input_ids@ + parameter_ids@,
            values@.len() == i,
            gradients@.len() == i,
            forall|k: int|
                0 <= k < i ==> values@[k] == (DataID { node: all[k], kind: DataKind::Value }),
            forall|k: int|
                0 <= k < i ==> gradients@[k] == (DataID { node: all[k], kind: DataKind::Gradient }),
        decreases input_ids.len() - i,
    {
        values.push(input_ids[i].value_id());
        gradients.push(input_ids[i].gradient_id());
        i += 1;
    }
    let mut j: usize = 0;
    while j < parameter_ids.len()
        invariant
            j <= parameter_ids.len(),
            all == input_ids@ + parameter_ids@,
            values@.len() == input_ids@.len() + j,
            gradients@.len() == input_ids@.len() + j,
            forall|k: int|
                0 <= k < input_ids@.len() + j ==> values@[k] == (DataID {
                    node: all[k],
                    kind: DataKind::Value,
                }),
            forall|k: int|
                0 <= k < input_ids@.len() + j ==> gradients@[k] == (DataID {
                    node: all[k],
                    kind: DataKind::Gradient,
                }),
        decreases parameter_ids.len() - j,
    {
        values.push(parameter_ids[j].value_id());
        gradients.push(parameter_ids[j].gradient_id());
        j += 1;
    }
    proof {
        assert(values@ =~= data_of(all, DataKind::Value));
        assert(gradients@ =~= data_of(all, DataKind::Gradient));
    }
    (values, gradients)
}

/// The count of the trials of a numeric check, and of those in which the
/// observed change of the loss disagreed with the gradient of the parameters,
/// or with that of the inputs.
#[derive(Clone, Copy, Debug, PartialEq, Eq, Structural)]
pub struct TrialTally {
    pub trials: usize,
    pub param_failures: usize,
    pub input_failures: usize,
}

impl TrialTally {
    /// The tally before the first trial.
    pub fn new() -> (t: TrialTally)
        ensures
            t.trials == 0,
            t.param_failures == 0,
            t.input_failures == 0,
    {
        TrialTally { trials: 0, param_failures: 0, input_failures: 0 }
    }

    /// Counts one trial; `param_failed` and `input_failed` say whether the
    /// relative error of the step along the parameters' gradient, or along
    /// the inputs', exceeded the tolerance or was not a number. A count that
    /// has reached the largest number stays there.
    pub fn record(&mut self, param_failed: bool, input_failed: bool)
        ensures
            final(self).trials == if old(self).trials < usize::MAX {
                old(self).trials + 1
            } else {
                usize::MAX as int
            },
            final(self).param_failures == if param_failed && old(self).param_failures < usize::MAX {
                old(self).param_failures + 1
            } else {
                old(self).param_failures as int
            },
            final(self).input_failures == if input_failed && old(self).input_failures < usize::MAX {
                old(self).input_failures + 1
            } else {
                old(self).input_failures as int
            },
    {
        if self.trials < usize::MAX {
            self.trials = self.trials + 1;
        }
        if param_failed && self.param_failures < usize::MAX {
            self.param_failures = self.param_failures + 1;
        }
        if input_failed && self.input_failures < usize::MAX {
            self.input_failures = self.input_failures + 1;
        }
    }

    /// Whether the check has passed: neither count of failures exceeds the
    /// number allowed.
    pub fn verdict(&self, failures: usize) -> (r: Result<(), Error>)
        ensures
            r is Ok <==> self.param_failures <= failures && self.input_failures <= failures,
            r matches Err(e) ==> e == (Error::NumericCheckFailure {
                param_failures: self.param_failures,
                input_failures: self.input_failures,
            }),
    {
        if self.param_failures <= failures && self.input_failures <= failures {
            Ok(())
        } else {
            Err(
                Error::NumericCheckFailure {
                    param_failures: self.param_failures,
                    input_failures: self.input_failures,
                },
            )
        }
    }
}

/// The map type of the `indexmap` crate, which keeps its entries in the order
/// in which they were inserted. Nothing of its inside is known here.
#[verifier::external_type_specification]
#[verifier::external_body]
#[verifier::reject_recursive_types(K)]
#[verifier::reject_recursive_types(V)]
#[verifier::reject_recursive_types(S)]
pub struct ExIndexMap<K, V, S>(IndexMap<K, V, S>);

/// What a map from node indices to numbers holds: for each key, its value.
pub uninterp spec fn entries(map: IndexMap<usize, usize>) -> Map<usize, usize>;

/// `IndexMap::get` of the `indexmap` crate: the value stored for `key`, if
/// the map holds the key, else `None`. The map is not changed.
#[verifier::external_body]
fn lookup(map: &IndexMap<usize, usize>, key: usize) -> (r: Option<usize>)
    ensures
        r == if entries(*map).contains_key(key) {
            Some(entries(*map)[key])
        } else {
            None::<usize>
        },
{
    map.get(&key).copied()
}

/// Where the sample values of a node come from.
#[derive(Clone, Copy, Debug, PartialEq, Eq, Structural)]
pub enum FillSource {
    /// From the normal distribution with mean zero and the default variance.
    Normal,
    /// From the caller's function number `slot`.
    Override { slot: usize },
}

/// The source for a node, given what the map of overrides holds for it.
pub fn choose_fill(found: Option<usize>) -> (r: FillSource)
    ensures
        r == (match found {
            Some(slot) => FillSource::Override { slot },
            None => FillSource::Normal,
        }),
{
    match found {
        Some(slot) => FillSource::Override { slot },
        None => FillSource::Normal,
    }
}

/// The source for a node under the given overrides.
pub open spec fn fill_source_for(overrides: Map<usize, usize>, node: NodeID) -> FillSource {
    if overrides.contains_key(node.index) {
        FillSource::Override { slot: overrides[node.index] }
    } else {
        FillSource::Normal
    }
}

/// Where the sample values of each node of a list come from: from the
/// caller's function whose number `overrides` holds under the node's index,
/// and from the default distribution where it holds none.
pub fn fill_sources(node_ids: &[NodeID], overrides: &IndexMap<usize, usize>) -> (r: Vec<FillSource>)
    ensures
        r@.len() == node_ids@.len(),
        forall|i: int|
            0 <= i < r@.len() ==> #[trigger] r@[i] == fill_source_for(
                entries(*overrides),
                node_ids@[i],
            ),
{
    let mut r: Vec<FillSource> = Vec::new();
    let mut i: usize = 0;
    while i < node_ids.len()
        invariant
            i <= node_ids.len(),
            r@.len() == i,
            forall|k: int|
                0 <= k < i ==> #[trigger] r@[k] == fill_source_for(
                    entries(*overrides),
                    node_ids@[k],
                ),
        decreases node_ids.len() - i,
    {
        r.push(choose_fill(lookup(overrides, node_ids[i].index)));
        i += 1;
    }
    r
}

} // verus!
