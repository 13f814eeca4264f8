//! Operations, and what they share.

use crate::graph::{GraphDef, Node};
use crate::id::NodeID;
use vstd::prelude::*;

pub mod activ;
pub mod broadcast;
pub mod channels;
pub mod loss;
pub mod math;
pub mod numeric_check;

verus! {

/// Names joined by commas.
pub open spec fn joined(names: Seq<Seq<char>>) -> Seq<char>
    decreases names.len(),
{
    if names.len() == 0 {
        Seq::empty()
    } else if names.len() == 1 {
        names[0]
    } else {
        joined(names.drop_last()) + ","@ + names.last()
    }
}

/// The names of the nodes behind a list of handles; the empty name for a
/// handle that the table does not hold.
pub open spec fn node_names(nodes: Seq<Node>, ids: Seq<NodeID>) -> Seq<Seq<char>> {
    Seq::new(
        ids.len(),
        |i: int|
            if ids[i].index < nodes.len() {
                nodes[ids[i].index as int].name@
            } else {
                Seq::empty()
            },
    )
}

/// The name that an operation gets where its user chose none: the name of
/// its kind, then in parentheses the names of its inputs, `=>`, and the names
/// of its outputs.
pub open spec fn standard_name(kind: Seq<char>, inputs: Seq<Seq<char>>, outputs: Seq<Seq<char>>) -> Seq<
    char,
> {
    kind + "("@ + joined(inputs) + "=>"@ + joined(outputs) + ")"@
}

/// The name of an operation: the one its user chose, or else the standard
/// name made of its kind and of the names of its input and output nodes.
pub open spec fn op_name(
    kind: Seq<char>,
    name: Option<String>,
    nodes: Seq<Node>,
    inputs: Seq<NodeID>,
    outputs: Seq<NodeID>,
) -> Seq<char> {
    match name {
        Some(chosen) => chosen@,
        None => standard_name(kind, node_names(nodes, inputs), node_names(nodes, outputs)),
    }
}

/// Appends to `text` the names of the nodes behind `ids`, joined by commas.
fn push_names(text: &mut String, graph: &GraphDef, ids: &[NodeID])
    ensures
        final(text)@ == old(text)@ + joined(node_names(graph.nodes(), ids@)),
{
    let nodes = graph.node_table();
    let ghost names = node_names(graph.nodes(), ids@);
    let mut i: usize = 0;
    proof {
        assert(names.take(0) =~= Seq::<Seq<char>>::empty());
        assert(text@ =~= old(text)@ + joined(names.take(0)));
    }
    while i < ids.len()
        invariant
            i <= ids.len(),
            nodes@ == graph.nodes(),
            names == node_names(graph.nodes(), ids@),
            text@ == old(text)@ + joined(names.take(i as int)),
        decreases ids.len() - i,
    {
        let ghost before = text@;
        if i > 0 {
            text.append(",");
        }
        if ids[i].index < nodes.len() {
            text.append(nodes[ids[i].index].name.as_str());
        }
        proof {
            let shorter = names.take(i as int);
            let longer = names.take(i + 1);
            assert(longer.drop_last() =~= shorter);
            assert(longer.last() == names[i as int]);
            if i == 0 {
                assert(joined(shorter) =~= Seq::<char>::empty());
                assert(text@ =~= old(text)@ + joined(longer));
            } else {
                assert(joined(longer) == joined(shorter) + ","@ + names[i as int]);
                assert(text@ =~= old(text)@ + joined(longer));
            }
        }
        i += 1;
    }
    proof {
        assert(names.take(ids.len() as int) =~= names);
    }
}

/// The name of an operation: the one its user chose, or else the standard
/// name made of its kind and of the names of its input and output nodes.
pub fn standard_op_name(
    kind: &str,
    name: &Option<String>,
    graph: &GraphDef,
    inputs: &[NodeID],
    outputs: &[NodeID],
) -> (r: String)
    ensures
        r@ == op_name(kind@, *name, graph.nodes(), inputs@, outputs@),
{
    match name {
        Some(chosen) => chosen.clone(),
        None => {
            let mut text = kind.to_owned();
            text.append("(");
            push_names(&mut text, graph, inputs);
            text.append("=>");
            push_names(&mut text, graph, outputs);
            text.append(")");
            text
        },
    }
}

} // verus!
