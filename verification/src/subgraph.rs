//! Choosing and ordering the passes that compute requested buffers from given
//! ones.

use crate::deps::{lists_touching, reads, touches, writes, Dependencies};
use crate::error::Error;
use crate::flags::DataFlags;
use crate::graph::{
    data_in_range, first_foreign, is_first_foreign, pass_in_range, GraphDef, PassRecord,
};
use crate::id::{DataID, NodeID, PassID};
use crate::plan::{
    all_back_earned, back_earned, closed, earns, has_writer, lemma_earned_within_closed,
    lemma_plan_backwards_is_earned, lemma_plan_is_closed, lemma_prefix_has_run,
    lemma_stall_excludes_plan, lemma_unwritten_output_has_no_plan, ran, read_later, ready,
    settled, valid_plan,
};
use vstd::prelude::*;

verus! {

/// The positions of a table of flags that are set.
pub open spec fn flag_set(flags: Seq<bool>) -> Set<int> {
    Set::new(|p: int| 0 <= p < flags.len() && flags[p])
}

/// The number of flags of a table that are not set.
pub open spec fn count_unset(flags: Seq<bool>) -> nat
    decreases flags.len(),
{
    if flags.len() == 0 {
        0
    } else {
        count_unset(flags.drop_last()) + if flags.last() {
            0nat
        } else {
            1nat
        }
    }
}

/// Setting a flag that was not set leaves one fewer unset.
proof fn lemma_count_unset_after_set(flags: Seq<bool>, at: int)
    requires
        0 <= at < flags.len(),
        !flags[at],
    ensures
        count_unset(flags.update(at, true)) + 1 == count_unset(flags),
    decreases flags.len(),
{
    let after = flags.update(at, true);
    if at == flags.len() - 1 {
        assert(after.drop_last() =~= flags.drop_last());
    } else {
        lemma_count_unset_after_set(flags.drop_last(), at);
        assert(after.drop_last() =~= flags.drop_last().update(at, true));
    }
}

/// A table of `n` flags, none of them set.
fn unset_flags(n: usize) -> (flags: Vec<bool>)
    ensures
        flags@.len() == n,
        forall|k: int| 0 <= k < n ==> !flags@[k],
{
    let mut flags: Vec<bool> = Vec::new();
    let mut i: usize = 0;
    while i < n
        invariant
            i <= n,
            flags@.len() == i,
            forall|k: int| 0 <= k < i ==> !flags@[k],
        decreases n - i,
    {
        flags.push(false);
        i += 1;
    }
    flags
}

/// The set of the buffers of a list, all of which must belong to the first
/// `n` nodes.
fn flags_of(list: &[DataID], n: usize) -> (flags: DataFlags)
    requires
        data_in_range(list@, n as nat),
    ensures
        flags.wf(),
        flags.node_count() == n,
        forall|d: DataID| flags.has(d) <==> list@.contains(d),
        flags@ == list@.to_set(),
{
    let mut flags = DataFlags::new(n);
    let mut i: usize = 0;
    while i < list.len()
        invariant
            i <= list.len(),
            data_in_range(list@, n as nat),
            flags.wf(),
            flags.node_count() == n,
            forall|d: DataID| flags.has(d) <==> list@.take(i as int).contains(d),
        decreases list.len() - i,
    {
        let ghost before = flags;
        let added = flags.insert(&list[i]);
        proof {
            assert(added);
            assert forall|d: DataID| flags.has(d) <==> list@.take(i + 1).contains(d) by {
                let longer = list@.take(i + 1);
                let shorter = list@.take(i as int);
                if flags.has(d) {
                    if before.has(d) {
                        let k = choose|k: int| 0 <= k < shorter.len() && shorter[k] == d;
                        assert(longer[k] == d);
                    } else {
                        assert(longer[i as int] == d);
                    }
                }
                if longer.contains(d) {
                    let k = choose|k: int| 0 <= k < longer.len() && longer[k] == d;
                    if k < i {
                        assert(shorter[k] == d);
                    }
                }
            }
        }
        i += 1;
    }
    proof {
        assert(list@.take(list.len() as int) =~= list@);
        assert(flags@ =~= list@.to_set());
    }
    flags
}

/// Whether a buffer is complete once the passes flagged in `done` have run.
fn is_settled(
    graph: &GraphDef,
    deps: &Dependencies,
    inputs: &DataFlags,
    done: &Vec<bool>,
    d: &DataID,
) -> (b: bool)
    requires
        graph.wf(),
        deps.describes(graph.passes(), graph.nodes().len()),
        done@.len() == graph.passes().len(),
    ensures
        b == settled(graph.passes(), inputs@, flag_set(done@), *d),
{
    if inputs.contains(d) {
        return true;
    }
    let ghost passes = graph.passes();
    let count = graph.pass_count();
    let producers = deps.data_inputs(d);
    proof {
        if d.node.index >= graph.nodes().len() {
            assert(deps.producers(*d).len() == 0);
            if has_writer(passes, *d) {
                let p = choose|p: int| writes(passes, p, *d);
                assert(pass_in_range(passes[p], graph.nodes().len()));
                let k = choose|k: int|
                    0 <= k < passes[p].writes@.len() && passes[p].writes@[k] == *d;
                assert(passes[p].writes@[k].node.index < graph.nodes().len());
            }
        } else {
            assert(lists_touching(deps.producers(*d), passes, *d, true));
            if has_writer(passes, *d) {
                let p = choose|p: int| writes(passes, p, *d);
                assert(touches(passes[p], *d, true));
                assert(producers@.contains(PassID { index: p as usize }));
            }
        }
    }
    if producers.len() == 0 {
        return false;
    }
    let mut k: usize = 0;
    while k < producers.len()
        invariant
            k <= producers.len(),
            producers@ == deps.producers(*d),
            d.node.index < graph.nodes().len(),
            passes == graph.passes(),
            passes.len() == count,
            !inputs@.contains(*d),
            lists_touching(producers@, passes, *d, true),
            done@.len() == passes.len(),
            forall|j: int| 0 <= j < k ==> done@[producers@[j].index as int],
        decreases producers.len() - k,
    {
        if !done[producers[k].index] {
            proof {
                let p = producers@[k as int].index as int;
                assert(touches(passes[p], *d, true));
                assert(writes(passes, p, *d));
                assert(!flag_set(done@).contains(p));
            }
            return false;
        }
        k += 1;
    }
    proof {
        let first = producers@[0].index as int;
        assert(touches(passes[first], *d, true));
        assert(writes(passes, first, *d));
        assert forall|p: int| #[trigger] writes(passes, p, *d) implies flag_set(done@).contains(
            p,
        ) by {
            assert(touches(passes[p], *d, true));
            assert(producers@.contains(PassID { index: p as usize }));
            let j = choose|j: int|
                0 <= j < producers@.len() && producers@[j] == PassID { index: p as usize };
            assert(done@[producers@[j].index as int]);
        }
    }
    true
}

/// Whether a pass can run once the passes flagged in `done` have run.
fn is_ready(
    graph: &GraphDef,
    deps: &Dependencies,
    inputs: &DataFlags,
    done: &Vec<bool>,
    p: usize,
) -> (b: bool)
    requires
        graph.wf(),
        deps.describes(graph.passes(), graph.nodes().len()),
        done@.len() == graph.passes().len(),
        p < graph.passes().len(),
    ensures
        b == ready(graph.passes(), inputs@, flag_set(done@), p as int),
{
    let passes = graph.pass_table();
    let pass = &passes[p];
    let mut i: usize = 0;
    while i < pass.reads.len()
        invariant
            i <= pass.reads.len(),
            graph.wf(),
            deps.describes(graph.passes(), graph.nodes().len()),
            done@.len() == graph.passes().len(),
            passes@ == graph.passes(),
            p < passes@.len(),
            *pass == passes@[p as int],
            forall|k: int|
                0 <= k < i ==> settled(graph.passes(), inputs@, flag_set(done@), pass.reads@[k]),
        decreases pass.reads.len() - i,
    {
        if !is_settled(graph, deps, inputs, done, &pass.reads[i]) {
            assert(reads(graph.passes(), p as int, pass.reads@[i as int]));
            return false;
        }
        i += 1;
    }
    true
}

/// Whether one of the listed passes reads `d`.
pub open spec fn read_by(passes: Seq<PassRecord>, list: Seq<int>, d: DataID) -> bool {
    exists|k: int| 0 <= k < list.len() && #[trigger] reads(passes, list[k], d)
}

/// The state of the search for the needed passes: `list` holds the passes
/// found so far, each needed on account of the requested buffers or of an
/// earlier entry; `needed` flags the same passes; and `wanted` holds the
/// buffers that are not given and that are requested or read by a pass found.
pub open spec fn marking_inv(
    passes: Seq<PassRecord>,
    inputs: Set<DataID>,
    outputs: Set<DataID>,
    needed: Seq<bool>,
    wanted: Set<DataID>,
    list: Seq<int>,
) -> bool {
    &&& needed.len() == passes.len()
    &&& all_back_earned(passes, inputs, outputs, list)
    &&& forall|i: int|
        0 <= i < list.len() ==> 0 <= #[trigger] list[i] < passes.len() && needed[list[i]]
    &&& forall|p: int| 0 <= p < needed.len() && #[trigger] needed[p] ==> list.contains(p)
    &&& forall|d: DataID| #[trigger]
        wanted.contains(d) <==> !inputs.contains(d) && (outputs.contains(d) || read_by(
            passes,
            list,
            d,
        ))
}

/// Whether every pass that writes a wanted buffer is flagged.
pub open spec fn marking_done(passes: Seq<PassRecord>, needed: Seq<bool>, wanted: Set<DataID>) -> bool {
    forall|p: int, d: DataID|
        0 <= p < needed.len() && !needed[p] && #[trigger] writes(passes, p, d) ==> !wanted.contains(
            d,
        )
}

/// Flagging a pass that writes a wanted buffer, and wanting what it reads,
/// keeps the state of the search in order.
proof fn lemma_mark(
    passes: Seq<PassRecord>,
    inputs: Set<DataID>,
    outputs: Set<DataID>,
    needed: Seq<bool>,
    wanted: Set<DataID>,
    list: Seq<int>,
    p: int,
    d0: DataID,
    wanted_after: Set<DataID>,
)
    requires
        marking_inv(passes, inputs, outputs, needed, wanted, list),
        0 <= p < passes.len(),
        !needed[p],
        writes(passes, p, d0),
        wanted.contains(d0),
        forall|d: DataID|
            wanted_after.contains(d) <==> wanted.contains(d) || (reads(passes, p, d)
                && !inputs.contains(d)),
    ensures
        marking_inv(passes, inputs, outputs, needed.update(p, true), wanted_after, list.push(p)),
{
    let longer = list.push(p);
    let flagged = needed.update(p, true);
    assert forall|i: int| 0 <= i < longer.len() implies #[trigger] back_earned(
        passes,
        inputs,
        outputs,
        longer,
        i,
    ) by {
        if i < list.len() {
            assert(back_earned(passes, inputs, outputs, list, i));
            let d = choose|d: DataID| #[trigger]
                writes(passes, list[i], d) && !inputs.contains(d) && (outputs.contains(d) || exists|
                    k: int,
                |
                    0 <= k < i && #[trigger] reads(passes, list[k], d));
            assert(writes(passes, longer[i], d));
            if !outputs.contains(d) {
                let k = choose|k: int| 0 <= k < i && #[trigger] reads(passes, list[k], d);
                assert(reads(passes, longer[k], d));
            }
        } else {
            assert(writes(passes, longer[i], d0));
            if !outputs.contains(d0) {
                assert(read_by(passes, list, d0));
                let k = choose|k: int| 0 <= k < list.len() && #[trigger] reads(passes, list[k], d0);
                assert(reads(passes, longer[k], d0));
            }
        }
    }
    assert forall|q: int| 0 <= q < flagged.len() && #[trigger] flagged[q] implies longer.contains(
        q,
    ) by {
        if q == p {
            assert(longer[list.len() as int] == p);
        } else {
            let k = choose|k: int| 0 <= k < list.len() && list[k] == q;
            assert(longer[k] == q);
        }
    }
    assert forall|d: DataID| #[trigger]
        wanted_after.contains(d) <==> !inputs.contains(d) && (outputs.contains(d) || read_by(
            passes,
            longer,
            d,
        )) by {
        if read_by(passes, longer, d) {
            let k = choose|k: int| 0 <= k < longer.len() && #[trigger] reads(passes, longer[k], d);
            if k < list.len() {
                assert(reads(passes, list[k], d));
                assert(read_by(passes, list, d));
            }
        }
        if read_by(passes, list, d) {
            let k = choose|k: int| 0 <= k < list.len() && #[trigger] reads(passes, list[k], d);
            assert(reads(passes, longer[k], d));
        }
        if reads(passes, p, d) {
            assert(reads(passes, longer[list.len() as int], d));
        }
    }
}

/// Whether a pass writes a buffer of the set.
fn writes_any(pass: &PassRecord, wanted: &DataFlags) -> (r: bool)
    ensures
        r == exists|d: DataID| pass.writes@.contains(d) && wanted.has(d),
{
    let mut i: usize = 0;
    while i < pass.writes.len()
        invariant
            i <= pass.writes.len(),
            forall|k: int| 0 <= k < i ==> !wanted.has(pass.writes@[k]),
        decreases pass.writes.len() - i,
    {
        if wanted.contains(&pass.writes[i]) {
            assert(pass.writes@.contains(pass.writes@[i as int]));
            return true;
        }
        i += 1;
    }
    false
}

/// Adds to `wanted` the buffers that a pass reads and that are not given.
fn want_reads(pass: &PassRecord, inputs: &DataFlags, wanted: &mut DataFlags)
    requires
        old(wanted).wf(),
        pass_in_range(*pass, old(wanted).node_count()),
    ensures
        final(wanted).wf(),
        final(wanted).node_count() == old(wanted).node_count(),
        forall|d: DataID| #[trigger]
            final(wanted).has(d) <==> old(wanted).has(d) || (pass.reads@.contains(d)
                && !inputs.has(d)),
{
    let mut i: usize = 0;
    while i < pass.reads.len()
        invariant
            i <= pass.reads.len(),
            wanted.wf(),
            wanted.node_count() == old(wanted).node_count(),
            pass_in_range(*pass, old(wanted).node_count()),
            forall|d: DataID| #[trigger]
                wanted.has(d) <==> old(wanted).has(d) || (pass.reads@.take(i as int).contains(d)
                    && !inputs.has(d)),
        decreases pass.reads.len() - i,
    {
        let ghost before = *wanted;
        let ghost shorter = pass.reads@.take(i as int);
        let ghost longer = pass.reads@.take(i + 1);
        let d = pass.reads[i];
        if !inputs.contains(&d) {
            let added = wanted.insert(&d);
            assert(added);
        }
        proof {
            assert(longer =~= shorter.push(d));
            assert forall|e: DataID| #[trigger]
                wanted.has(e) <==> old(wanted).has(e) || (longer.contains(e) && !inputs.has(
                    e,
                )) by {
                assert(before.has(e) <==> old(wanted).has(e) || (shorter.contains(e)
                    && !inputs.has(e)));
                if longer.contains(e) {
                    let k = choose|k: int| 0 <= k < longer.len() && longer[k] == e;
                    if k < i {
                        assert(shorter[k] == e);
                    }
                }
                if shorter.contains(e) {
                    let k = choose|k: int| 0 <= k < shorter.len() && shorter[k] == e;
                    assert(longer[k] == e);
                }
                assert(longer[i as int] == d);
            }
        }
        i += 1;
    }
    proof {
        assert(pass.reads@.take(pass.reads.len() as int) =~= pass.reads@);
    }
}

/// The requested buffers that are not given.
fn wanted_outputs(inputs: &DataFlags, outputs: &DataFlags, n: usize) -> (wanted: DataFlags)
    requires
        outputs.wf(),
        outputs.node_count() == n,
    ensures
        wanted.wf(),
        wanted.node_count() == n,
        forall|d: DataID| wanted.has(d) <==> outputs.has(d) && !inputs.has(d),
{
    let mut wanted = DataFlags::new(n);
    let mut i: usize = 0;
    while i < n
        invariant
            i <= n,
            wanted.wf(),
            wanted.node_count() == n,
            forall|d: DataID|
                wanted.has(d) <==> d.node.index < i && outputs.has(d) && !inputs.has(d),
        decreases n - i,
    {
        let node = NodeID { index: i };
        let value = node.value_id();
        let gradient = node.gradient_id();
        if outputs.contains(&value) && !inputs.contains(&value) {
            wanted.insert(&value);
        }
        if outputs.contains(&gradient) && !inputs.contains(&gradient) {
            wanted.insert(&gradient);
        }
        proof {
            assert forall|d: DataID|
                wanted.has(d) <==> d.node.index < i + 1 && outputs.has(d) && !inputs.has(d) by {
                if d.node.index == i {
                    assert(d.node == node);
                    assert(d == value || d == gradient);
                }
            }
        }
        i += 1;
    }
    proof {
        assert forall|d: DataID| wanted.has(d) <==> outputs.has(d) && !inputs.has(d) by {
            if outputs.has(d) {
                outputs.lemma_has_in_range(d);
            }
        }
    }
    wanted
}

/// Finds the passes that a request needs: those that write a buffer that is
/// not given and that is requested or read by a needed pass. Returns their
/// flags, the buffers wanted, and the passes in the order in which they
/// were found.
fn mark_needed(graph: &GraphDef, inputs: &DataFlags, outputs: &DataFlags) -> (r: (
    Vec<bool>,
    DataFlags,
    Ghost<Seq<int>>,
))
    requires
        graph.wf(),
        outputs.wf(),
        outputs.node_count() == graph.nodes().len(),
    ensures
        marking_inv(graph.passes(), inputs@, outputs@, r.0@, r.1@, r.2@),
        marking_done(graph.passes(), r.0@, r.1@),
        r.1.wf(),
        r.1.node_count() == graph.nodes().len(),
{
    let passes = graph.pass_table();
    let count = passes.len();
    let n = graph.node_count();
    let mut needed = unset_flags(count);
    let mut wanted = wanted_outputs(inputs, outputs, n);
    let ghost mut list: Seq<int> = Seq::empty();
    let mut changed = true;
    proof {
        assert forall|d: DataID| #[trigger]
            wanted@.contains(d) <==> !inputs@.contains(d) && (outputs@.contains(d) || read_by(
                passes@,
                list,
                d,
            )) by {
            assert(wanted.has(d) <==> outputs.has(d) && !inputs.has(d));
        }
    }
    while changed
        invariant
            graph.wf(),
            passes@ == graph.passes(),
            count == passes@.len(),
            n == graph.nodes().len(),
            wanted.wf(),
            wanted.node_count() == n,
            marking_inv(passes@, inputs@, outputs@, needed@, wanted@, list),
            !changed ==> marking_done(passes@, needed@, wanted@),
        decreases
                count_unset(needed@) + if changed {
                    1nat
                } else {
                    0nat
                },
    {
        changed = false;
        let ghost start = count_unset(needed@);
        let mut p: usize = 0;
        while p < count
            invariant
                p <= count,
                graph.wf(),
                passes@ == graph.passes(),
                count == passes@.len(),
                n == graph.nodes().len(),
                wanted.wf(),
                wanted.node_count() == n,
                marking_inv(passes@, inputs@, outputs@, needed@, wanted@, list),
                count_unset(needed@) <= start,
                changed ==> count_unset(needed@) < start,
                !changed ==> forall|q: int, d: DataID|
                    0 <= q < p && !needed@[q] && #[trigger] writes(passes@, q, d)
                        ==> !wanted@.contains(d),
            decreases count - p,
        {
            if !needed[p] && writes_any(&passes[p], &wanted) {
                let ghost needed_before = needed@;
                let ghost wanted_before = wanted@;
                let ghost d0 = choose|d: DataID| passes@[p as int].writes@.contains(d) && wanted.has(d);
                assert(pass_in_range(passes@[p as int], n as nat));
                needed.set(p, true);
                want_reads(&passes[p], inputs, &mut wanted);
                proof {
                    assert(writes(passes@, p as int, d0));
                    assert forall|d: DataID|
                        wanted@.contains(d) <==> wanted_before.contains(d) || (reads(
                            passes@,
                            p as int,
                            d,
                        ) && !inputs@.contains(d)) by {
                        assert(wanted.has(d) <==> wanted_before.contains(d) || (
                        passes@[p as int].reads@.contains(d) && !inputs.has(d)));
                    }
                    lemma_mark(
                        passes@,
                        inputs@,
                        outputs@,
                        needed_before,
                        wanted_before,
                        list,
                        p as int,
                        d0,
                        wanted@,
                    );
                    lemma_count_unset_after_set(needed_before, p as int);
                    list = list.push(p as int);
                }
                changed = true;
            } else {
                proof {
                    if !changed {
                        assert forall|q: int, d: DataID|
                            0 <= q < p + 1 && !needed@[q] && #[trigger] writes(
                                passes@,
                                q,
                                d,
                            ) implies !wanted@.contains(d) by {
                            if q == p {
                                if wanted@.contains(d) {
                                    assert(passes@[p as int].writes@.contains(d) && wanted.has(d));
                                }
                            }
                        }
                    }
                }
            }
            p += 1;
        }
    }
    (needed, wanted, Ghost(list))
}

/// A buffer has no producer exactly where no pass writes it.
proof fn lemma_leaf_has_no_writer(deps: &Dependencies, passes: Seq<PassRecord>, n: nat, d: DataID)
    requires
        deps.describes(passes, n),
        d.node.index < n,
    ensures
        (deps.producers(d).len() == 0) <==> !has_writer(passes, d),
{
    let s = deps.producers(d);
    assert(lists_touching(s, passes, d, true));
    if s.len() > 0 {
        assert(touches(passes[s[0].index as int], d, true));
        assert(writes(passes, s[0].index as int, d));
    }
    if has_writer(passes, d) {
        let p = choose|p: int| writes(passes, p, d);
        assert(touches(passes[p], d, true));
        assert(s.contains(PassID { index: p as usize }));
    }
}

/// The first wanted buffer, values before gradients node by node, that no
/// pass writes.
fn first_unwritten(graph: &GraphDef, deps: &Dependencies, wanted: &DataFlags) -> (r: Option<
    DataID,
>)
    requires
        deps.describes(graph.passes(), graph.nodes().len()),
        wanted.wf(),
        wanted.node_count() == graph.nodes().len(),
    ensures
        r is None ==> forall|d: DataID| wanted.has(d) ==> has_writer(graph.passes(), d),
        r matches Some(d) ==> wanted.has(d) && !has_writer(graph.passes(), d),
{
    let n = graph.node_count();
    let mut i: usize = 0;
    while i < n
        invariant
            i <= n,
            n == graph.nodes().len(),
            deps.describes(graph.passes(), graph.nodes().len()),
            forall|d: DataID|
                d.node.index < i && wanted.has(d) ==> has_writer(graph.passes(), d),
        decreases n - i,
    {
        let node = NodeID { index: i };
        let value = node.value_id();
        let gradient = node.gradient_id();
        proof {
            lemma_leaf_has_no_writer(deps, graph.passes(), n as nat, value);
            lemma_leaf_has_no_writer(deps, graph.passes(), n as nat, gradient);
        }
        if wanted.contains(&value) && deps.is_leaf(&value) {
            return Some(value);
        }
        if wanted.contains(&gradient) && deps.is_leaf(&gradient) {
            return Some(gradient);
        }
        proof {
            assert forall|d: DataID| d.node.index < i + 1 && wanted.has(d) implies has_writer(
                graph.passes(),
                d,
            ) by {
                if d.node.index == i {
                    assert(d.node == node);
                    assert(d == value || d == gradient);
                }
            }
        }
        i += 1;
    }
    proof {
        assert forall|d: DataID| wanted.has(d) implies has_writer(graph.passes(), d) by {
            wanted.lemma_has_in_range(d);
        }
    }
    None
}

/// A wanted buffer that no pass writes excludes every valid plan.
proof fn lemma_unwritten_excludes_plan(
    passes: Seq<PassRecord>,
    inputs: Set<DataID>,
    outputs: Set<DataID>,
    needed: Seq<bool>,
    wanted: Set<DataID>,
    list: Seq<int>,
    d: DataID,
    order: Seq<PassID>,
)
    requires
        marking_inv(passes, inputs, outputs, needed, wanted, list),
        wanted.contains(d),
        !has_writer(passes, d),
    ensures
        !valid_plan(passes, inputs, outputs, order),
{
    if valid_plan(passes, inputs, outputs, order) {
        let all = ran(order, order.len() as int);
        if outputs.contains(d) {
            assert(settled(passes, inputs, all, d));
        } else {
            assert(read_by(passes, list, d));
            let k = choose|k: int| 0 <= k < list.len() && #[trigger] reads(passes, list[k], d);
            lemma_plan_is_closed(passes, inputs, outputs, order);
            lemma_earned_within_closed(passes, inputs, outputs, list, all, k);
            let j = choose|j: int|
                0 <= j < order.len() && j < order.len() && #[trigger] order[j].index == list[k];
            assert(ready(passes, inputs, ran(order, j), order[j].index as int));
            assert(settled(passes, inputs, ran(order, j), d));
        }
    }
}

/// The state of the ordering: the passes of `order` are of the table, occur
/// once each, and each could run after those before it; `done` flags the same
/// passes, all of them needed.
pub open spec fn ordering_inv(
    passes: Seq<PassRecord>,
    inputs: Set<DataID>,
    needed: Seq<bool>,
    done: Seq<bool>,
    order: Seq<PassID>,
) -> bool {
    &&& done.len() == passes.len()
    &&& needed.len() == passes.len()
    &&& forall|i: int| 0 <= i < order.len() ==> (#[trigger] order[i]).index < passes.len()
    &&& forall|i: int, j: int| 0 <= i < j < order.len() ==> order[i] != order[j]
    &&& forall|i: int|
        0 <= i < order.len() ==> #[trigger] ready(
            passes,
            inputs,
            ran(order, i),
            order[i].index as int,
        )
    &&& flag_set(done) == ran(order, order.len() as int)
    &&& forall|p: int| 0 <= p < done.len() && #[trigger] done[p] ==> needed[p]
}

/// Whether no needed pass that has not run can run.
pub open spec fn stalled(
    passes: Seq<PassRecord>,
    inputs: Set<DataID>,
    needed: Seq<bool>,
    done: Seq<bool>,
) -> bool {
    forall|p: int|
        0 <= p < passes.len() && needed[p] && !done[p] ==> !#[trigger] ready(
            passes,
            inputs,
            flag_set(done),
            p,
        )
}

/// Appending a needed pass that can run, and flagging it, keeps the ordering
/// in order.
proof fn lemma_place(
    passes: Seq<PassRecord>,
    inputs: Set<DataID>,
    needed: Seq<bool>,
    done: Seq<bool>,
    order: Seq<PassID>,
    p: usize,
)
    requires
        ordering_inv(passes, inputs, needed, done, order),
        p < passes.len(),
        !done[p as int],
        needed[p as int],
        ready(passes, inputs, flag_set(done), p as int),
    ensures
        ordering_inv(
            passes,
            inputs,
            needed,
            done.update(p as int, true),
            order.push(PassID { index: p }),
        ),
{
    let x = PassID { index: p };
    let longer = order.push(x);
    let flagged = done.update(p as int, true);
    let n = order.len() as int;
    assert forall|i: int| 0 <= i <= n implies ran(longer, i) == ran(order, i) by {
        assert forall|q: int| ran(longer, i).contains(q) <==> ran(order, i).contains(q) by {
            if ran(longer, i).contains(q) {
                let j = choose|j: int|
                    0 <= j < i && j < longer.len() && #[trigger] longer[j].index == q;
                assert(order[j].index == q);
            }
            if ran(order, i).contains(q) {
                let j = choose|j: int|
                    0 <= j < i && j < order.len() && #[trigger] order[j].index == q;
                assert(longer[j].index == q);
            }
        }
        assert(ran(longer, i) =~= ran(order, i));
    }
    assert forall|i: int| 0 <= i < n implies order[i] != x by {
        assert(order[i].index == order[i].index);
        assert(ran(order, n).contains(order[i].index as int));
        assert(flag_set(done).contains(order[i].index as int));
    }
    assert forall|i: int| 0 <= i < longer.len() implies #[trigger] ready(
        passes,
        inputs,
        ran(longer, i),
        longer[i].index as int,
    ) by {
        assert(ran(longer, i) == ran(order, i));
        if i < n {
            assert(ready(passes, inputs, ran(order, i), order[i].index as int));
        }
    }
    assert forall|q: int| flag_set(flagged).contains(q) <==> ran(longer, n + 1).contains(q) by {
        if flag_set(flagged).contains(q) {
            if q == p {
                assert(longer[n].index == q);
            } else {
                assert(flag_set(done).contains(q));
                assert(ran(order, n).contains(q));
                let j = choose|j: int|
                    0 <= j < n && j < order.len() && #[trigger] order[j].index == q;
                assert(longer[j].index == q);
            }
        }
        if ran(longer, n + 1).contains(q) {
            let j = choose|j: int|
                0 <= j < n + 1 && j < longer.len() && #[trigger] longer[j].index == q;
            if j < n {
                assert(order[j].index == q);
                assert(ran(order, n).contains(q));
                assert(flag_set(done).contains(q));
            }
        }
    }
    assert(flag_set(flagged) =~= ran(longer, n + 1));
}

/// Orders the needed passes as far as they can run: pass after pass is
/// appended as soon as every buffer it reads is complete, until no further
/// pass can run. Returns the order and the flags of the passes in it.
fn order_needed(graph: &GraphDef, deps: &Dependencies, inputs: &DataFlags, needed: &Vec<bool>) -> (r:
    (Vec<PassID>, Vec<bool>))
    requires
        graph.wf(),
        deps.describes(graph.passes(), graph.nodes().len()),
        needed@.len() == graph.passes().len(),
    ensures
        ordering_inv(graph.passes(), inputs@, needed@, r.1@, r.0@),
        stalled(graph.passes(), inputs@, needed@, r.1@),
{
    let count = graph.pass_count();
    let ghost passes = graph.passes();
    let mut done = unset_flags(count);
    let mut order: Vec<PassID> = Vec::new();
    let mut progress = true;
    proof {
        assert(flag_set(done@) =~= ran(order@, 0));
    }
    while progress
        invariant
            graph.wf(),
            deps.describes(graph.passes(), graph.nodes().len()),
            passes == graph.passes(),
            count == passes.len(),
            ordering_inv(passes, inputs@, needed@, done@, order@),
            !progress ==> stalled(passes, inputs@, needed@, done@),
        decreases
                count_unset(done@) + if progress {
                    1nat
                } else {
                    0nat
                },
    {
        progress = false;
        let ghost start = count_unset(done@);
        let mut p: usize = 0;
        while p < count
            invariant
                p <= count,
                graph.wf(),
                deps.describes(graph.passes(), graph.nodes().len()),
                passes == graph.passes(),
                count == passes.len(),
                ordering_inv(passes, inputs@, needed@, done@, order@),
                count_unset(done@) <= start,
                progress ==> count_unset(done@) < start,
                !progress ==> forall|q: int|
                    0 <= q < p && needed@[q] && !done@[q] ==> !#[trigger] ready(
                        passes,
                        inputs@,
                        flag_set(done@),
                        q,
                    ),
            decreases count - p,
        {
            if needed[p] && !done[p] && is_ready(graph, deps, inputs, &done, p) {
                proof {
                    lemma_place(passes, inputs@, needed@, done@, order@, p);
                    lemma_count_unset_after_set(done@, p as int);
                }
                done.set(p, true);
                order.push(PassID { index: p });
                progress = true;
            }
            p += 1;
        }
    }
    (order, done)
}

/// The first buffer, pass by pass, that a needed pass still to run reads and
/// that is not complete.
fn first_blocked(
    graph: &GraphDef,
    deps: &Dependencies,
    inputs: &DataFlags,
    needed: &Vec<bool>,
    done: &Vec<bool>,
) -> (r: Option<DataID>)
    requires
        graph.wf(),
        deps.describes(graph.passes(), graph.nodes().len()),
        needed@.len() == graph.passes().len(),
        done@.len() == graph.passes().len(),
    ensures
        r is None ==> forall|p: int|
            0 <= p < graph.passes().len() && needed@[p] && !done@[p] ==> #[trigger] ready(
                graph.passes(),
                inputs@,
                flag_set(done@),
                p,
            ),
        r matches Some(d) ==> exists|p: int|
            {
                &&& 0 <= p < graph.passes().len()
                &&& needed@[p]
                &&& !done@[p]
                &&& #[trigger] reads(graph.passes(), p, d)
                &&& !settled(graph.passes(), inputs@, flag_set(done@), d)
            },
{
    let passes = graph.pass_table();
    let mut p: usize = 0;
    while p < passes.len()
        invariant
            p <= passes.len(),
            graph.wf(),
            deps.describes(graph.passes(), graph.nodes().len()),
            passes@ == graph.passes(),
            needed@.len() == passes@.len(),
            done@.len() == passes@.len(),
            forall|q: int|
                0 <= q < p && needed@[q] && !done@[q] ==> #[trigger] ready(
                    graph.passes(),
                    inputs@,
                    flag_set(done@),
                    q,
                ),
        decreases passes.len() - p,
    {
        if needed[p] && !done[p] {
            let pass = &passes[p];
            let mut i: usize = 0;
            while i < pass.reads.len()
                invariant
                    i <= pass.reads.len(),
                    p < passes.len(),
                    graph.wf(),
                    deps.describes(graph.passes(), graph.nodes().len()),
                    passes@ == graph.passes(),
                    needed@.len() == passes@.len(),
                    done@.len() == passes@.len(),
                    needed@[p as int],
                    !done@[p as int],
                    *pass == passes@[p as int],
                    forall|k: int|
                        0 <= k < i ==> settled(
                            graph.passes(),
                            inputs@,
                            flag_set(done@),
                            pass.reads@[k],
                        ),
                decreases pass.reads.len() - i,
            {
                if !is_settled(graph, deps, inputs, done, &pass.reads[i]) {
                    assert(reads(graph.passes(), p as int, pass.reads@[i as int]));
                    return Some(pass.reads[i]);
                }
                i += 1;
            }
        }
        p += 1;
    }
    None
}

/// Once every needed pass has been placed, the order is a valid plan.
proof fn lemma_complete_plan(
    passes: Seq<PassRecord>,
    inputs: Set<DataID>,
    outputs: Set<DataID>,
    needed: Seq<bool>,
    wanted: Set<DataID>,
    list: Seq<int>,
    done: Seq<bool>,
    order: Seq<PassID>,
)
    requires
        marking_inv(passes, inputs, outputs, needed, wanted, list),
        marking_done(passes, needed, wanted),
        forall|d: DataID| wanted.contains(d) ==> has_writer(passes, d),
        ordering_inv(passes, inputs, needed, done, order),
        forall|p: int| 0 <= p < passes.len() && needed[p] ==> done[p],
    ensures
        valid_plan(passes, inputs, outputs, order),
{
    let n = order.len() as int;
    let all = ran(order, n);
    assert forall|d: DataID| outputs.contains(d) implies #[trigger] settled(
        passes,
        inputs,
        all,
        d,
    ) by {
        if !inputs.contains(d) {
            assert(wanted.contains(d));
            assert forall|p: int| #[trigger] writes(passes, p, d) implies all.contains(p) by {
                assert(needed[p]);
                assert(flag_set(done).contains(p));
            }
        }
    }
    assert forall|i: int| 0 <= i < n implies #[trigger] earns(passes, inputs, outputs, order, i) by {
        let q = order[i].index as int;
        assert(all.contains(q));
        assert(flag_set(done).contains(q));
        assert(needed[q]);
        let m = choose|m: int| 0 <= m < list.len() && list[m] == q;
        assert(back_earned(passes, inputs, outputs, list, m));
        let d = choose|d: DataID| #[trigger]
            writes(passes, list[m], d) && !inputs.contains(d) && (outputs.contains(d) || exists|
                k: int,
            |
                0 <= k < m && #[trigger] reads(passes, list[k], d));
        if !outputs.contains(d) {
            let k = choose|k: int| 0 <= k < m && #[trigger] reads(passes, list[k], d);
            let r = list[k];
            assert(needed[r]);
            assert(flag_set(done).contains(r));
            assert(all.contains(r));
            let j = choose|j: int| 0 <= j < n && j < order.len() && #[trigger] order[j].index == r;
            assert(ready(passes, inputs, ran(order, j), order[j].index as int));
            assert(settled(passes, inputs, ran(order, j), d));
            assert(ran(order, j).contains(q));
            let before = choose|b: int|
                0 <= b < j && b < order.len() && #[trigger] order[b].index == q;
            assert(order[before] == order[i]);
            assert(before == i);
            assert(reads(passes, order[j].index as int, d));
            assert(read_later(passes, order, i, d));
        }
        assert(writes(passes, order[i].index as int, d));
    }
}

/// A stall with a needed pass still to run excludes every valid plan.
proof fn lemma_blocked_excludes_plan(
    passes: Seq<PassRecord>,
    inputs: Set<DataID>,
    outputs: Set<DataID>,
    needed: Seq<bool>,
    wanted: Set<DataID>,
    list: Seq<int>,
    done: Seq<bool>,
    blocked: int,
    order: Seq<PassID>,
)
    requires
        marking_inv(passes, inputs, outputs, needed, wanted, list),
        marking_done(passes, needed, wanted),
        done.len() == passes.len(),
        stalled(passes, inputs, needed, done),
        0 <= blocked < passes.len(),
        needed[blocked],
        !done[blocked],
    ensures
        !valid_plan(passes, inputs, outputs, order),
{
    if valid_plan(passes, inputs, outputs, order) {
        let need = flag_set(needed);
        let ran_set = flag_set(done);
        assert forall|d: DataID, p: int|
            outputs.contains(d) && !inputs.contains(d) && #[trigger] writes(
                passes,
                p,
                d,
            ) implies need.contains(p) by {
            assert(wanted.contains(d));
        }
        assert forall|q: int, d: DataID, p: int|
            need.contains(q) && #[trigger] reads(passes, q, d) && !inputs.contains(d)
                && #[trigger] writes(passes, p, d) implies need.contains(p) by {
            let k = choose|k: int| 0 <= k < list.len() && list[k] == q;
            assert(reads(passes, list[k], d));
            assert(read_by(passes, list, d));
            assert(wanted.contains(d));
        }
        assert(closed(passes, inputs, outputs, need));
        assert forall|p: int| need.contains(p) && !ran_set.contains(p) implies !ready(
            passes,
            inputs,
            ran_set,
            p,
        ) by {
            assert(needed[p] && !done[p]);
        }
        lemma_stall_excludes_plan(passes, inputs, outputs, list, need, ran_set, order);
        assert(need.contains(blocked));
        assert(ran_set.contains(blocked));
    }
}

/// At a stall, a buffer that a needed pass still to run reads, and that is not
/// complete, cannot be computed from the inputs at all: no plan is valid for
/// a request for that buffer alone.
proof fn lemma_blocked_data_has_no_plan(
    passes: Seq<PassRecord>,
    inputs: Set<DataID>,
    outputs: Set<DataID>,
    needed: Seq<bool>,
    wanted: Set<DataID>,
    list: Seq<int>,
    done: Seq<bool>,
    blocked: int,
    data: DataID,
    order: Seq<PassID>,
)
    requires
        marking_inv(passes, inputs, outputs, needed, wanted, list),
        marking_done(passes, needed, wanted),
        done.len() == passes.len(),
        stalled(passes, inputs, needed, done),
        0 <= blocked < passes.len(),
        needed[blocked],
        reads(passes, blocked, data),
        !settled(passes, inputs, flag_set(done), data),
    ensures
        !valid_plan(passes, inputs, set![data], order),
{
    let alone = set![data];
    if valid_plan(passes, inputs, alone, order) {
        let need = flag_set(needed);
        let ran_set = flag_set(done);
        let k = choose|k: int| 0 <= k < list.len() && list[k] == blocked;
        assert(reads(passes, list[k], data));
        assert(read_by(passes, list, data));
        assert(wanted.contains(data));
        assert forall|d: DataID, p: int|
            alone.contains(d) && !inputs.contains(d) && #[trigger] writes(
                passes,
                p,
                d,
            ) implies need.contains(p) by {
            assert(d == data);
        }
        assert forall|q: int, d: DataID, p: int|
            need.contains(q) && #[trigger] reads(passes, q, d) && !inputs.contains(d)
                && #[trigger] writes(passes, p, d) implies need.contains(p) by {
            let j = choose|j: int| 0 <= j < list.len() && list[j] == q;
            assert(reads(passes, list[j], d));
            assert(read_by(passes, list, d));
            assert(wanted.contains(d));
        }
        assert(closed(passes, inputs, alone, need));
        assert forall|p: int| need.contains(p) && !ran_set.contains(p) implies !ready(
            passes,
            inputs,
            ran_set,
            p,
        ) by {
            assert(needed[p] && !done[p]);
        }
        let n = order.len() as int;
        lemma_plan_backwards_is_earned(passes, inputs, alone, order);
        lemma_prefix_has_run(passes, inputs, alone, need, ran_set, order, n);
        assert(alone.contains(data));
        assert(settled(passes, inputs, ran(order, n), data));
        assert forall|p: int| #[trigger] writes(passes, p, data) implies ran_set.contains(p) by {
            assert(ran(order, n).contains(p));
            let j = choose|j: int| 0 <= j < n && j < order.len() && #[trigger] order[j].index == p;
            assert(ran_set.contains(order[j].index as int));
        }
    }
}

/// The buffers that are requested or that a pass of the order reads.
pub open spec fn required_by(
    passes: Seq<PassRecord>,
    outputs: Set<DataID>,
    order: Seq<PassID>,
    d: DataID,
) -> bool {
    outputs.contains(d) || exists|i: int|
        0 <= i < order.len() && #[trigger] reads(passes, order[i].index as int, d)
}

/// The passes that compute requested buffers from given ones, in an order in
/// which they can run, with the buffers that running them requires.
#[derive(Debug)]
pub struct Subgraph {
    inputs: Vec<DataID>,
    outputs: Vec<DataID>,
    order: Vec<PassID>,
    required: DataFlags,
}

impl Subgraph {
    /// The buffers that the caller gives.
    pub closed spec fn inputs(&self) -> Seq<DataID> {
        self.inputs@
    }

    /// The buffers that the caller requests.
    pub closed spec fn outputs(&self) -> Seq<DataID> {
        self.outputs@
    }

    /// The passes to run, first to last.
    pub closed spec fn order(&self) -> Seq<PassID> {
        self.order@
    }

    /// Whether running the passes requires a buffer for `d`.
    pub closed spec fn requires_data(&self, d: DataID) -> bool {
        self.required.has(d)
    }

    /// Whether this is a plan of `graph`: its passes compute the requested
    /// buffers from the given ones and none is superfluous, and the buffers
    /// required are the requested ones and those that its passes read.
    pub open spec fn plans(&self, graph: &GraphDef) -> bool {
        &&& data_in_range(self.inputs(), graph.nodes().len())
        &&& data_in_range(self.outputs(), graph.nodes().len())
        &&& valid_plan(
            graph.passes(),
            self.inputs().to_set(),
            self.outputs().to_set(),
            self.order(),
        )
        &&& forall|d: DataID| #[trigger]
            self.requires_data(d) <==> required_by(
                graph.passes(),
                self.outputs().to_set(),
                self.order(),
                d,
            )
    }

    /// The passes to run, first to last.
    pub fn pass_order(&self) -> (order: &Vec<PassID>)
        ensures
            order@ == self.order(),
    {
        &self.order
    }

    /// The buffers that the caller gives.
    pub fn input_ids(&self) -> (ids: &Vec<DataID>)
        ensures
            ids@ == self.inputs(),
    {
        &self.inputs
    }

    /// The buffers that the caller requests.
    pub fn output_ids(&self) -> (ids: &Vec<DataID>)
        ensures
            ids@ == self.outputs(),
    {
        &self.outputs
    }

    /// Whether running the passes requires a buffer for `d`: it is requested,
    /// or one of the passes reads it. A pass may leave out what it would
    /// write to a buffer that is not required.
    pub fn is_required(&self, d: &DataID) -> (b: bool)
        ensures
            b == self.requires_data(*d),
    {
        self.required.contains(d)
    }
}

/// A copy of a list of buffers.
fn copy_ids(list: &[DataID]) -> (r: Vec<DataID>)
    ensures
        r@ == list@,
{
    let mut r: Vec<DataID> = Vec::new();
    let mut i: usize = 0;
    while i < list.len()
        invariant
            i <= list.len(),
            r@ == list@.take(i as int),
        decreases list.len() - i,
    {
        r.push(list[i]);
        assert(list@.take(i + 1) =~= list@.take(i as int).push(list@[i as int]));
        i += 1;
    }
    assert(list@.take(list.len() as int) =~= list@);
    r
}

/// The set of the buffers that are requested or that a pass of the order
/// reads.
fn required_flags(graph: &GraphDef, outputs: &DataFlags, order: &Vec<PassID>) -> (r: DataFlags)
    requires
        graph.wf(),
        outputs.wf(),
        outputs.node_count() == graph.nodes().len(),
        forall|i: int| 0 <= i < order@.len() ==> (#[trigger] order@[i]).index < graph.passes().len(),
    ensures
        r.wf(),
        r.node_count() == graph.nodes().len(),
        forall|d: DataID| #[trigger] r.has(d) <==> required_by(graph.passes(), outputs@, order@, d),
{
    let passes = graph.pass_table();
    let n = graph.node_count();
    let none = DataFlags::new(n);
    let mut r = wanted_outputs(&none, outputs, n);
    let mut i: usize = 0;
    while i < order.len()
        invariant
            i <= order.len(),
            graph.wf(),
            passes@ == graph.passes(),
            n == graph.nodes().len(),
            r.wf(),
            r.node_count() == n,
            forall|d: DataID| !none.has(d),
            forall|k: int| 0 <= k < order@.len() ==> (#[trigger] order@[k]).index < passes@.len(),
            forall|d: DataID| #[trigger]
                r.has(d) <==> required_by(passes@, outputs@, order@.take(i as int), d),
        decreases order.len() - i,
    {
        let ghost before = r;
        let ghost shorter = order@.take(i as int);
        let ghost longer = order@.take(i + 1);
        let p = order[i].index;
        assert(pass_in_range(passes@[p as int], n as nat));
        want_reads(&passes[p], &none, &mut r);
        proof {
            assert forall|d: DataID| #[trigger]
                r.has(d) <==> required_by(passes@, outputs@, longer, d) by {
                assert(before.has(d) <==> required_by(passes@, outputs@, shorter, d));
                assert(r.has(d) <==> before.has(d) || (passes@[p as int].reads@.contains(d)
                    && !none.has(d)));
                if required_by(passes@, outputs@, longer, d) && !outputs@.contains(d) {
                    let k = choose|k: int|
                        0 <= k < longer.len() && #[trigger] reads(
                            passes@,
                            longer[k].index as int,
                            d,
                        );
                    if k < i {
                        assert(reads(passes@, shorter[k].index as int, d));
                    }
                }
                if required_by(passes@, outputs@, shorter, d) && !outputs@.contains(d) {
                    let k = choose|k: int|
                        0 <= k < shorter.len() && #[trigger] reads(
                            passes@,
                            shorter[k].index as int,
                            d,
                        );
                    assert(reads(passes@, longer[k].index as int, d));
                }
                if passes@[p as int].reads@.contains(d) {
                    assert(reads(passes@, longer[i as int].index as int, d));
                }
            }
        }
        i += 1;
    }
    proof {
        assert(order@.take(order.len() as int) =~= order@);
    }
    r
}

impl GraphDef {
    /// Plans the computation of the buffers `outputs` from the buffers
    /// `inputs`: chooses the passes that are needed and puts them in an order
    /// in which each runs after every pass that writes what it reads.
    ///
    /// A handle of a node that the graph does not hold is refused as
    /// `UnknownNode`, naming the first such node, inputs before outputs. A
    /// request that no order of passes can meet is refused as
    /// `MissingDependency`, naming a buffer that is requested or read by a
    /// pass, that is not given, and that no passes can compute from what is
    /// given.
    pub fn subgraph(&self, inputs: &[DataID], outputs: &[DataID]) -> (r: Result<Subgraph, Error>)
        requires
            self.wf(),
        ensures
            r is Ok <==> {
                &&& data_in_range(inputs@, self.nodes().len())
                &&& data_in_range(outputs@, self.nodes().len())
                &&& exists|order: Seq<PassID>|
                    valid_plan(self.passes(), inputs@.to_set(), outputs@.to_set(), order)
            },
            r matches Ok(sg) ==> {
                &&& sg.inputs() == inputs@
                &&& sg.outputs() == outputs@
                &&& sg.plans(self)
            },
            r matches Err(e) ==> {
                if !data_in_range(inputs@, self.nodes().len()) {
                    e matches Error::UnknownNode { node } && is_first_foreign(
                        inputs@,
                        self.nodes().len(),
                        node,
                    )
                } else if !data_in_range(outputs@, self.nodes().len()) {
                    e matches Error::UnknownNode { node } && is_first_foreign(
                        outputs@,
                        self.nodes().len(),
                        node,
                    )
                } else {
                    &&& e matches Error::MissingDependency { data }
                    &&& !inputs@.contains(data)
                    &&& outputs@.contains(data) || exists|p: int| reads(self.passes(), p, data)
                    &&& forall|order: Seq<PassID>|
                        !valid_plan(self.passes(), inputs@.to_set(), set![data], order)
                }
            },
    {
        let n = self.node_count();
        let inputs_vec = copy_ids(inputs);
        let outputs_vec = copy_ids(outputs);
        match first_foreign(&inputs_vec, n) {
            Some(node) => {
                return Err(Error::UnknownNode { node });
            },
            None => {},
        }
        match first_foreign(&outputs_vec, n) {
            Some(node) => {
                return Err(Error::UnknownNode { node });
            },
            None => {},
        }
        let given = flags_of(inputs, n);
        let asked = flags_of(outputs, n);
        let deps = Dependencies::new(self);
        let (needed, wanted, Ghost(list)) = mark_needed(self, &given, &asked);
        let ghost passes = self.passes();
        match first_unwritten(self, &deps, &wanted) {
            Some(data) => {
                proof {
                    assert(wanted@.contains(data));
                    assert forall|order: Seq<PassID>|
                        !valid_plan(passes, given@, asked@, order) by {
                        lemma_unwritten_excludes_plan(
                            passes,
                            given@,
                            asked@,
                            needed@,
                            wanted@,
                            list,
                            data,
                            order,
                        );
                    }
                    if !asked@.contains(data) {
                        assert(read_by(passes, list, data));
                        let k = choose|k: int|
                            0 <= k < list.len() && #[trigger] reads(passes, list[k], data);
                        assert(reads(passes, list[k], data));
                    }
                    assert forall|order: Seq<PassID>|
                        !valid_plan(passes, given@, set![data], order) by {
                        lemma_unwritten_output_has_no_plan(
                            passes,
                            given@,
                            set![data],
                            data,
                            order,
                        );
                    }
                }
                return Err(Error::MissingDependency { data });
            },
            None => {},
        }
        let (order, done) = order_needed(self, &deps, &given, &needed);
        match first_blocked(self, &deps, &given, &needed, &done) {
            Some(data) => {
                proof {
                    let blocked = choose|p: int|
                        {
                            &&& 0 <= p < passes.len()
                            &&& needed@[p]
                            &&& !done@[p]
                            &&& #[trigger] reads(passes, p, data)
                            &&& !settled(passes, given@, flag_set(done@), data)
                        };
                    assert forall|order: Seq<PassID>|
                        !valid_plan(passes, given@, asked@, order) by {
                        lemma_blocked_excludes_plan(
                            passes,
                            given@,
                            asked@,
                            needed@,
                            wanted@,
                            list,
                            done@,
                            blocked,
                            order,
                        );
                    }
                    assert(!given@.contains(data));
                    assert forall|order: Seq<PassID>|
                        !valid_plan(passes, given@, set![data], order) by {
                        lemma_blocked_data_has_no_plan(
                            passes,
                            given@,
                            asked@,
                            needed@,
                            wanted@,
                            list,
                            done@,
                            blocked,
                            data,
                            order,
                        );
                    }
                }
                return Err(Error::MissingDependency { data });
            },
            None => {},
        }
        proof {
            assert forall|p: int| 0 <= p < passes.len() && needed@[p] implies done@[p] by {
                if !done@[p] {
                    assert(ready(passes, given@, flag_set(done@), p));
                }
            }
            assert forall|d: DataID| wanted@.contains(d) implies has_writer(passes, d) by {
                assert(wanted.has(d));
            }
            lemma_complete_plan(passes, given@, asked@, needed@, wanted@, list, done@, order@);
        }
        let required = required_flags(self, &asked, &order);
        Ok(Subgraph { inputs: inputs_vec, outputs: outputs_vec, order, required })
    }
}

} // verus!
