//! Losses: operations that add to the loss and start the backward passes.

use crate::id::{NodeID, PassID};
use vstd::prelude::*;

pub mod mse;

verus! {

/// How a loss is attached to the graph.
#[derive(Clone, Copy, Debug, PartialEq, Eq, Structural)]
pub enum LossType {
    /// The loss is applied to the graph as it is, in one pass, and has no
    /// node of its own.
    Joint { pass_id: PassID },
    /// The loss is written to a node of its own, by a forward pass, and
    /// differentiated by a backward pass.
    Output { output_id: NodeID, forward_id: PassID, backward_id: PassID },
}

impl LossType {
    /// The passes of the loss, in the order in which they run.
    pub fn passes(&self) -> (r: Vec<PassID>)
        ensures
            r@ == (match *self {
                LossType::Joint { pass_id } => seq![pass_id],
                LossType::Output { output_id, forward_id, backward_id } => seq![
                    forward_id,
                    backward_id,
                ],
            }),
    {
        match *self {
            LossType::Joint { pass_id } => {
                let r = vec![pass_id];
                proof {
                    assert(r@ =~= seq![pass_id]);
                }
                r
            },
            LossType::Output { output_id, forward_id, backward_id } => {
                let r = vec![forward_id, backward_id];
                proof {
                    assert(r@ =~= seq![forward_id, backward_id]);
                }
                r
            },
        }
    }
}

} // verus!
