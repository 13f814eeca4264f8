//! What it means for a list of passes to compute the requested buffers from
//! the given ones, and why any two such lists hold the same passes.

use crate::deps::{reads, writes};
use crate::graph::PassRecord;
use crate::id::{DataID, PassID};
use vstd::prelude::*;

verus! {

/// The passes among the first `upto` of an order.
pub open spec fn ran(order: Seq<PassID>, upto: int) -> Set<int> {
    Set::new(
        |p: int| exists|j: int| 0 <= j < upto && j < order.len() && #[trigger] order[j].index == p,
    )
}

/// Whether some pass writes `d`.
pub open spec fn has_writer(passes: Seq<PassRecord>, d: DataID) -> bool {
    exists|p: int| writes(passes, p, d)
}

/// Whether `d` is complete once the passes in `done` have run: it is given, or
/// it is written by at least one pass and every pass that writes it has run.
pub open spec fn settled(
    passes: Seq<PassRecord>,
    inputs: Set<DataID>,
    done: Set<int>,
    d: DataID,
) -> bool {
    inputs.contains(d) || (has_writer(passes, d) && forall|p: int| #[trigger]
        writes(passes, p, d) ==> done.contains(p))
}

/// Whether pass `p` can run once the passes in `done` have: every buffer it
/// reads is complete.
pub open spec fn ready(
    passes: Seq<PassRecord>,
    inputs: Set<DataID>,
    done: Set<int>,
    p: int,
) -> bool {
    forall|d: DataID| #[trigger] reads(passes, p, d) ==> settled(passes, inputs, done, d)
}

/// Whether a pass after position `i` of the order reads `d`.
pub open spec fn read_later(
    passes: Seq<PassRecord>,
    order: Seq<PassID>,
    i: int,
    d: DataID,
) -> bool {
    exists|j: int| i < j < order.len() && #[trigger] reads(passes, order[j].index as int, d)
}

/// Whether the pass at position `i` of the order is there for a reason: it
/// writes a buffer that is not given and that is either requested or read by
/// a later pass of the order.
pub open spec fn earns(
    passes: Seq<PassRecord>,
    inputs: Set<DataID>,
    outputs: Set<DataID>,
    order: Seq<PassID>,
    i: int,
) -> bool {
    exists|d: DataID| #[trigger]
        writes(passes, order[i].index as int, d) && !inputs.contains(d) && (outputs.contains(d)
            || read_later(passes, order, i, d))
}

/// Whether running the passes of `order`, in that order, computes every
/// buffer of `outputs` from the buffers of `inputs`, and runs no pass that is
/// not needed for that:
/// each pass is of the table and occurs once; each runs only when every buffer
/// it reads is complete; at the end every requested buffer is complete; and
/// each pass writes something that is requested or that a later pass reads.
pub open spec fn valid_plan(
    passes: Seq<PassRecord>,
    inputs: Set<DataID>,
    outputs: Set<DataID>,
    order: Seq<PassID>,
) -> bool {
    &&& forall|i: int| 0 <= i < order.len() ==> (#[trigger] order[i]).index < passes.len()
    &&& forall|i: int, j: int| 0 <= i < j < order.len() ==> order[i] != order[j]
    &&& forall|i: int|
        0 <= i < order.len() ==> #[trigger] ready(
            passes,
            inputs,
            ran(order, i),
            order[i].index as int,
        )
    &&& forall|d: DataID|
        outputs.contains(d) ==> #[trigger] settled(
            passes,
            inputs,
            ran(order, order.len() as int),
            d,
        )
    &&& forall|i: int| 0 <= i < order.len() ==> #[trigger] earns(passes, inputs, outputs, order, i)
}

/// Whether entry `i` of a list of passes writes a buffer that is not given and
/// that is either requested or read by an earlier entry of the list.
pub open spec fn back_earned(
    passes: Seq<PassRecord>,
    inputs: Set<DataID>,
    outputs: Set<DataID>,
    list: Seq<int>,
    i: int,
) -> bool {
    exists|d: DataID| #[trigger]
        writes(passes, list[i], d) && !inputs.contains(d) && (outputs.contains(d) || exists|
            k: int,
        |
            0 <= k < i && #[trigger] reads(passes, list[k], d))
}

/// Whether every entry of a list is needed on account of the requested
/// buffers or of an earlier entry.
pub open spec fn all_back_earned(
    passes: Seq<PassRecord>,
    inputs: Set<DataID>,
    outputs: Set<DataID>,
    list: Seq<int>,
) -> bool {
    forall|i: int| 0 <= i < list.len() ==> #[trigger] back_earned(passes, inputs, outputs, list, i)
}

/// Whether a set of passes holds every pass that writes a requested buffer
/// that is not given, and every pass that writes a buffer that is not given
/// and that one of the set reads.
pub open spec fn closed(
    passes: Seq<PassRecord>,
    inputs: Set<DataID>,
    outputs: Set<DataID>,
    c: Set<int>,
) -> bool {
    &&& forall|d: DataID, p: int|
        outputs.contains(d) && !inputs.contains(d) && #[trigger] writes(passes, p, d)
            ==> c.contains(p)
    &&& forall|q: int, d: DataID, p: int|
        c.contains(q) && #[trigger] reads(passes, q, d) && !inputs.contains(d) && #[trigger] writes(
            passes,
            p,
            d,
        ) ==> c.contains(p)
}

/// A closed set holds every entry of a list whose entries are each needed on
/// account of the requested buffers or of an earlier entry.
pub proof fn lemma_earned_within_closed(
    passes: Seq<PassRecord>,
    inputs: Set<DataID>,
    outputs: Set<DataID>,
    list: Seq<int>,
    c: Set<int>,
    i: int,
)
    requires
        all_back_earned(passes, inputs, outputs, list),
        closed(passes, inputs, outputs, c),
        0 <= i < list.len(),
    ensures
        c.contains(list[i]),
    decreases i,
{
    assert(back_earned(passes, inputs, outputs, list, i));
    let d = choose|d: DataID| #[trigger]
        writes(passes, list[i], d) && !inputs.contains(d) && (outputs.contains(d) || exists|
            k: int,
        |
            0 <= k < i && #[trigger] reads(passes, list[k], d));
    if !outputs.contains(d) {
        let k = choose|k: int| 0 <= k < i && #[trigger] reads(passes, list[k], d);
        lemma_earned_within_closed(passes, inputs, outputs, list, c, k);
    }
}

/// The passes of a valid plan form a closed set.
pub proof fn lemma_plan_is_closed(
    passes: Seq<PassRecord>,
    inputs: Set<DataID>,
    outputs: Set<DataID>,
    order: Seq<PassID>,
)
    requires
        valid_plan(passes, inputs, outputs, order),
    ensures
        closed(passes, inputs, outputs, ran(order, order.len() as int)),
{
    let all = ran(order, order.len() as int);
    assert forall|d: DataID, p: int|
        outputs.contains(d) && !inputs.contains(d) && #[trigger] writes(
            passes,
            p,
            d,
        ) implies all.contains(p) by {
        assert(settled(passes, inputs, all, d));
    }
    assert forall|q: int, d: DataID, p: int|
        all.contains(q) && #[trigger] reads(passes, q, d) && !inputs.contains(d) && #[trigger] writes(
            passes,
            p,
            d,
        ) implies all.contains(p) by {
        let j = choose|j: int|
            0 <= j < order.len() && j < order.len() && #[trigger] order[j].index == q;
        assert(ready(passes, inputs, ran(order, j), order[j].index as int));
        assert(settled(passes, inputs, ran(order, j), d));
        assert(ran(order, j).contains(p));
    }
}

/// The passes of a valid plan, last first.
pub open spec fn backwards(order: Seq<PassID>) -> Seq<int> {
    Seq::new(order.len(), |i: int| order[order.len() - 1 - i].index as int)
}

/// Read from its end, a valid plan is a list whose entries are each needed on
/// account of the requested buffers or of an earlier entry.
pub proof fn lemma_plan_backwards_is_earned(
    passes: Seq<PassRecord>,
    inputs: Set<DataID>,
    outputs: Set<DataID>,
    order: Seq<PassID>,
)
    requires
        valid_plan(passes, inputs, outputs, order),
    ensures
        all_back_earned(passes, inputs, outputs, backwards(order)),
{
    let list = backwards(order);
    let n = order.len() as int;
    assert forall|i: int| 0 <= i < list.len() implies #[trigger] back_earned(
        passes,
        inputs,
        outputs,
        list,
        i,
    ) by {
        let at = n - 1 - i;
        assert(earns(passes, inputs, outputs, order, at));
        let d = choose|d: DataID| #[trigger]
            writes(passes, order[at].index as int, d) && !inputs.contains(d) && (outputs.contains(d)
                || read_later(passes, order, at, d));
        assert(writes(passes, list[i], d));
        if !outputs.contains(d) {
            let j = choose|j: int|
                at < j < order.len() && #[trigger] reads(passes, order[j].index as int, d);
            let k = n - 1 - j;
            assert(reads(passes, list[k], d));
        }
    }
}

/// Where no needed pass that is still to run can run, no valid plan exists
/// unless every needed pass has run.
///
/// `list` holds the needed passes, each needed on account of the requested
/// buffers or of an earlier entry; `needed` is the same as a set, and closed;
/// `done` are the passes that have run, all of them needed.
pub proof fn lemma_stall_excludes_plan(
    passes: Seq<PassRecord>,
    inputs: Set<DataID>,
    outputs: Set<DataID>,
    list: Seq<int>,
    needed: Set<int>,
    done: Set<int>,
    order: Seq<PassID>,
)
    requires
        valid_plan(passes, inputs, outputs, order),
        all_back_earned(passes, inputs, outputs, list),
        forall|i: int| 0 <= i < list.len() ==> needed.contains(#[trigger] list[i]),
        forall|p: int| needed.contains(p) ==> list.contains(p),
        closed(passes, inputs, outputs, needed),
        forall|p: int| needed.contains(p) && !done.contains(p) ==> !ready(passes, inputs, done, p),
    ensures
        forall|p: int| needed.contains(p) ==> done.contains(p),
{
    let n = order.len() as int;
    lemma_plan_is_closed(passes, inputs, outputs, order);
    lemma_plan_backwards_is_earned(passes, inputs, outputs, order);
    lemma_prefix_has_run(passes, inputs, outputs, needed, done, order, n);
    assert forall|p: int| needed.contains(p) implies done.contains(p) by {
        let i = choose|i: int| 0 <= i < list.len() && list[i] == p;
        lemma_earned_within_closed(passes, inputs, outputs, list, ran(order, n), i);
        let j = choose|j: int| 0 <= j < n && j < order.len() && #[trigger] order[j].index == p;
        assert(done.contains(order[j].index as int));
    }
}

/// Under the conditions of a stall, every pass among the first `upto` of a
/// valid plan has run.
pub proof fn lemma_prefix_has_run(
    passes: Seq<PassRecord>,
    inputs: Set<DataID>,
    outputs: Set<DataID>,
    needed: Set<int>,
    done: Set<int>,
    order: Seq<PassID>,
    upto: int,
)
    requires
        valid_plan(passes, inputs, outputs, order),
        all_back_earned(passes, inputs, outputs, backwards(order)),
        closed(passes, inputs, outputs, needed),
        forall|p: int| needed.contains(p) && !done.contains(p) ==> !ready(passes, inputs, done, p),
        0 <= upto <= order.len(),
    ensures
        forall|j: int| 0 <= j < upto ==> done.contains(#[trigger] order[j].index as int),
    decreases upto,
{
    if upto > 0 {
        let i = upto - 1;
        lemma_prefix_has_run(passes, inputs, outputs, needed, done, order, i);
        let p = order[i].index as int;
        let n = order.len() as int;
        lemma_earned_within_closed(passes, inputs, outputs, backwards(order), needed, n - 1 - i);
        assert(backwards(order)[n - 1 - i] == p);
        assert(needed.contains(p));
        if !done.contains(p) {
            assert(ready(passes, inputs, ran(order, i), order[i].index as int));
            assert forall|d: DataID| #[trigger] reads(passes, p, d) implies settled(
                passes,
                inputs,
                done,
                d,
            ) by {
                assert(settled(passes, inputs, ran(order, i), d));
                if !inputs.contains(d) {
                    assert forall|q: int| #[trigger] writes(passes, q, d) implies done.contains(
                        q,
                    ) by {
                        assert(ran(order, i).contains(q));
                        let j = choose|j: int|
                            0 <= j < i && j < order.len() && #[trigger] order[j].index == q;
                        assert(done.contains(order[j].index as int));
                    }
                }
            }
            assert(ready(passes, inputs, done, p));
            assert(false);
        }
    }
}

/// Any two valid plans for the same request run the same passes.
pub proof fn lemma_plans_run_the_same_passes(
    passes: Seq<PassRecord>,
    inputs: Set<DataID>,
    outputs: Set<DataID>,
    first: Seq<PassID>,
    second: Seq<PassID>,
)
    requires
        valid_plan(passes, inputs, outputs, first),
        valid_plan(passes, inputs, outputs, second),
    ensures
        ran(first, first.len() as int) == ran(second, second.len() as int),
{
    let a = ran(first, first.len() as int);
    let b = ran(second, second.len() as int);
    lemma_plan_is_closed(passes, inputs, outputs, first);
    lemma_plan_is_closed(passes, inputs, outputs, second);
    lemma_plan_backwards_is_earned(passes, inputs, outputs, first);
    lemma_plan_backwards_is_earned(passes, inputs, outputs, second);
    assert forall|p: int| a.contains(p) implies b.contains(p) by {
        let j = choose|j: int|
            0 <= j < first.len() && j < first.len() && #[trigger] first[j].index == p;
        let k = first.len() - 1 - j;
        assert(backwards(first)[k] == p);
        lemma_earned_within_closed(passes, inputs, outputs, backwards(first), b, k);
    }
    assert forall|p: int| b.contains(p) implies a.contains(p) by {
        let j = choose|j: int|
            0 <= j < second.len() && j < second.len() && #[trigger] second[j].index == p;
        let k = second.len() - 1 - j;
        assert(backwards(second)[k] == p);
        lemma_earned_within_closed(passes, inputs, outputs, backwards(second), a, k);
    }
    assert(a =~= b);
}

/// A requested buffer that is not given and that no pass writes cannot be
/// computed: no plan is valid for a request that holds it.
pub proof fn lemma_unwritten_output_has_no_plan(
    passes: Seq<PassRecord>,
    inputs: Set<DataID>,
    outputs: Set<DataID>,
    d: DataID,
    order: Seq<PassID>,
)
    requires
        outputs.contains(d),
        !inputs.contains(d),
        !has_writer(passes, d),
    ensures
        !valid_plan(passes, inputs, outputs, order),
{
    if valid_plan(passes, inputs, outputs, order) {
        assert(settled(passes, inputs, ran(order, order.len() as int), d));
    }
}

/// A buffer that is requested but not given is written by a pass of every
/// valid plan: it is computed, not left as it was made.
pub proof fn lemma_output_is_written(
    passes: Seq<PassRecord>,
    inputs: Set<DataID>,
    outputs: Set<DataID>,
    d: DataID,
    order: Seq<PassID>,
)
    requires
        valid_plan(passes, inputs, outputs, order),
        outputs.contains(d),
        !inputs.contains(d),
    ensures
        exists|i: int| 0 <= i < order.len() && #[trigger] writes(passes, order[i].index as int, d),
{
    let all = ran(order, order.len() as int);
    assert(settled(passes, inputs, all, d));
    let p = choose|p: int| writes(passes, p, d);
    assert(all.contains(p));
    let i = choose|i: int| 0 <= i < order.len() && i < order.len() && #[trigger] order[i].index == p;
    assert(writes(passes, order[i].index as int, d));
}

} // verus!
