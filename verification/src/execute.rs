//! Running a plan: its passes are handed out one at a time, in order, and each
//! is handed out only when everything it reads is complete.

use crate::graph::GraphDef;
use crate::id::{DataID, PassID};
use crate::plan::{ran, ready, settled};
use crate::subgraph::Subgraph;
use vstd::prelude::*;

verus! {

/// How far one execution of a plan has come.
#[derive(Debug)]
pub struct Execution {
    started: usize,
}

impl Execution {
    /// The number of passes handed out so far.
    pub closed spec fn started(&self) -> nat {
        self.started as nat
    }

    /// An execution of which no pass has been handed out.
    pub fn new() -> (e: Execution)
        ensures
            e.started() == 0,
    {
        Execution { started: 0 }
    }

    /// Hands out the next pass of the plan, once the pass handed out before it
    /// has run; `None` when all have been handed out.
    pub fn next_pass(&mut self, plan: &Subgraph) -> (r: Option<PassID>)
        ensures
            r is Some <==> old(self).started() < plan.order().len(),
            r matches Some(pass) ==> {
                &&& pass == plan.order()[old(self).started() as int]
                &&& final(self).started() == old(self).started() + 1
            },
            r is None ==> final(self).started() == old(self).started(),
    {
        let order = plan.pass_order();
        if self.started < order.len() {
            let pass = order[self.started];
            self.started = self.started + 1;
            Some(pass)
        } else {
            None
        }
    }

    /// Whether every pass of the plan has been handed out.
    pub fn is_finished(&self, plan: &Subgraph) -> (b: bool)
        ensures
            b == (self.started() >= plan.order().len()),
    {
        self.started >= plan.pass_order().len()
    }
}

/// When a pass of a plan is handed out, every buffer that it reads is
/// complete: it is given, or else it is written by at least one pass and
/// every pass that writes it has been handed out before.
pub proof fn lemma_pass_runs_on_complete_buffers(
    graph: &GraphDef,
    plan: &Subgraph,
    position: int,
)
    requires
        plan.plans(graph),
        0 <= position < plan.order().len(),
    ensures
        ready(
            graph.passes(),
            plan.inputs().to_set(),
            ran(plan.order(), position),
            plan.order()[position].index as int,
        ),
{
}

/// When every pass of a plan has run, every requested buffer is complete.
pub proof fn lemma_outputs_are_complete(graph: &GraphDef, plan: &Subgraph, d: DataID)
    requires
        plan.plans(graph),
        plan.outputs().contains(d),
    ensures
        settled(
            graph.passes(),
            plan.inputs().to_set(),
            ran(plan.order(), plan.order().len() as int),
            d,
        ),
{
    assert(plan.outputs().to_set().contains(d));
}

/// A buffer that is neither requested nor read by a pass of the plan is not
/// required: an execution holds no buffer for it, and a pass that could write
/// it leaves that out.
pub proof fn lemma_unread_unrequested_is_not_required(
    graph: &GraphDef,
    plan: &Subgraph,
    d: DataID,
)
    requires
        plan.plans(graph),
        !plan.outputs().contains(d),
        forall|i: int|
            0 <= i < plan.order().len() ==> !crate::deps::reads(
                graph.passes(),
                #[trigger] plan.order()[i].index as int,
                d,
            ),
    ensures
        !plan.requires_data(d),
{
    assert(!plan.outputs().to_set().contains(d));
}

} // verus!
