//! Which passes write and read each buffer.

use crate::graph::{GraphDef, PassRecord};
use crate::id::{DataID, DataKind, NodeID, PassID};
use vstd::prelude::*;

verus! {

/// Whether a pass writes (`write`) or reads (`!write`) a buffer.
pub open spec fn touches(pass: PassRecord, d: DataID, write: bool) -> bool {
    if write {
        pass.writes@.contains(d)
    } else {
        pass.reads@.contains(d)
    }
}

/// Whether pass `p` of a table writes `d`.
pub open spec fn writes(passes: Seq<PassRecord>, p: int, d: DataID) -> bool {
    0 <= p < passes.len() && passes[p].writes@.contains(d)
}

/// Whether pass `p` of a table reads `d`.
pub open spec fn reads(passes: Seq<PassRecord>, p: int, d: DataID) -> bool {
    0 <= p < passes.len() && passes[p].reads@.contains(d)
}

/// Whether a list of passes is in strictly ascending order of handle.
pub open spec fn ascending(s: Seq<PassID>) -> bool {
    forall|i: int, j: int| 0 <= i < j < s.len() ==> s[i].index < s[j].index
}

/// Whether `s` lists, each once and in ascending order, exactly the passes of
/// the table that write (`write`) or read (`!write`) the buffer `d`.
pub open spec fn lists_touching(
    s: Seq<PassID>,
    passes: Seq<PassRecord>,
    d: DataID,
    write: bool,
) -> bool {
    &&& ascending(s)
    &&& forall|k: int|
        0 <= k < s.len() ==> (#[trigger] s[k]).index < passes.len() && touches(
            passes[s[k].index as int],
            d,
            write,
        )
    &&& forall|p: int|
        0 <= p < passes.len() && touches(#[trigger] passes[p], d, write) ==> s.contains(
            PassID { index: p as usize },
        )
}

/// Whether a list of buffers holds a given one.
pub fn holds(list: &Vec<DataID>, d: &DataID) -> (b: bool)
    ensures
        b == list@.contains(*d),
{
    let mut i: usize = 0;
    while i < list.len()
        invariant
            i <= list.len(),
            forall|k: int| 0 <= k < i ==> list@[k] != *d,
        decreases list.len() - i,
    {
        if list[i] == *d {
            return true;
        }
        i += 1;
    }
    false
}

/// The passes of a table that write (`write`) or read (`!write`) a buffer.
pub fn passes_touching(passes: &Vec<PassRecord>, d: &DataID, write: bool) -> (r: Vec<PassID>)
    ensures
        lists_touching(r@, passes@, *d, write),
{
    let mut r: Vec<PassID> = Vec::new();
    let mut p: usize = 0;
    while p < passes.len()
        invariant
            p <= passes.len(),
            ascending(r@),
            forall|k: int|
                0 <= k < r@.len() ==> (#[trigger] r@[k]).index < p && touches(
                    passes@[r@[k].index as int],
                    *d,
                    write,
                ),
            forall|q: int|
                0 <= q < p && touches(#[trigger] passes@[q], *d, write) ==> r@.contains(
                    PassID { index: q as usize },
                ),
        decreases passes.len() - p,
    {
        let hit = if write {
            holds(&passes[p].writes, d)
        } else {
            holds(&passes[p].reads, d)
        };
        if hit {
            let ghost before = r@;
            r.push(PassID { index: p });
            proof {
                assert(r@[before.len() as int] == PassID { index: p });
                assert forall|q: int|
                    0 <= q < p + 1 && touches(#[trigger] passes@[q], *d, write) implies r@.contains(
                    PassID { index: q as usize },
                ) by {
                    if q < p {
                        let k = choose|k: int|
                            0 <= k < before.len() && before[k] == PassID { index: q as usize };
                        assert(r@[k] == PassID { index: q as usize });
                    }
                }
            }
        }
        p += 1;
    }
    r
}

/// For each buffer of a graph, the passes that write it and the passes that
/// read it.
#[derive(Debug)]
pub struct Dependencies {
    value_producers: Vec<Vec<PassID>>,
    gradient_producers: Vec<Vec<PassID>>,
    value_consumers: Vec<Vec<PassID>>,
    gradient_consumers: Vec<Vec<PassID>>,
}

impl Dependencies {
    /// The number of nodes that the tables cover.
    pub closed spec fn node_count(&self) -> nat {
        self.value_producers@.len()
    }

    /// The tables are of one length.
    pub closed spec fn wf(&self) -> bool {
        &&& self.gradient_producers@.len() == self.value_producers@.len()
        &&& self.value_consumers@.len() == self.value_producers@.len()
        &&& self.gradient_consumers@.len() == self.value_producers@.len()
    }

    /// The passes that write `d`, in ascending order; none for a buffer
    /// outside the tables.
    pub closed spec fn producers(&self, d: DataID) -> Seq<PassID> {
        match d.kind {
            DataKind::Value => if d.node.index < self.value_producers@.len() {
                self.value_producers@[d.node.index as int]@
            } else {
                Seq::empty()
            },
            DataKind::Gradient => if d.node.index < self.gradient_producers@.len() {
                self.gradient_producers@[d.node.index as int]@
            } else {
                Seq::empty()
            },
        }
    }

    /// The passes that read `d`, in ascending order; none for a buffer
    /// outside the tables.
    pub closed spec fn consumers(&self, d: DataID) -> Seq<PassID> {
        match d.kind {
            DataKind::Value => if d.node.index < self.value_consumers@.len() {
                self.value_consumers@[d.node.index as int]@
            } else {
                Seq::empty()
            },
            DataKind::Gradient => if d.node.index < self.gradient_consumers@.len() {
                self.gradient_consumers@[d.node.index as int]@
            } else {
                Seq::empty()
            },
        }
    }

    /// Whether the tables say of every buffer of the first `n` nodes exactly
    /// which passes of `passes` write it and which read it.
    pub open spec fn describes(&self, passes: Seq<PassRecord>, n: nat) -> bool {
        &&& self.wf()
        &&& self.node_count() == n
        &&& forall|d: DataID|
            d.node.index < n ==> lists_touching(#[trigger] self.producers(d), passes, d, true)
        &&& forall|d: DataID|
            d.node.index < n ==> lists_touching(#[trigger] self.consumers(d), passes, d, false)
        &&& forall|d: DataID| d.node.index >= n ==> (#[trigger] self.producers(d)).len() == 0
        &&& forall|d: DataID| d.node.index >= n ==> (#[trigger] self.consumers(d)).len() == 0
    }

    /// Derives the tables from the passes of a graph.
    pub fn new(graph: &GraphDef) -> (deps: Dependencies)
        ensures
            deps.describes(graph.passes(), graph.nodes().len()),
    {
        let passes = graph.pass_table();
        let n = graph.node_count();
        let mut value_producers: Vec<Vec<PassID>> = Vec::new();
        let mut gradient_producers: Vec<Vec<PassID>> = Vec::new();
        let mut value_consumers: Vec<Vec<PassID>> = Vec::new();
        let mut gradient_consumers: Vec<Vec<PassID>> = Vec::new();
        let mut i: usize = 0;
        while i < n
            invariant
                i <= n,
                value_producers@.len() == i,
                gradient_producers@.len() == i,
                value_consumers@.len() == i,
                gradient_consumers@.len() == i,
                forall|k: int|
                    0 <= k < i ==> lists_touching(
                        (#[trigger] value_producers@[k])@,
                        passes@,
                        DataID { node: NodeID { index: k as usize }, kind: DataKind::Value },
                        true,
                    ),
                forall|k: int|
                    0 <= k < i ==> lists_touching(
                        (#[trigger] gradient_producers@[k])@,
                        passes@,
                        DataID { node: NodeID { index: k as usize }, kind: DataKind::Gradient },
                        true,
                    ),
                forall|k: int|
                    0 <= k < i ==> lists_touching(
                        (#[trigger] value_consumers@[k])@,
                        passes@,
                        DataID { node: NodeID { index: k as usize }, kind: DataKind::Value },
                        false,
                    ),
                forall|k: int|
                    0 <= k < i ==> lists_touching(
                        (#[trigger] gradient_consumers@[k])@,
                        passes@,
                        DataID { node: NodeID { index: k as usize }, kind: DataKind::Gradient },
                        false,
                    ),
            decreases n - i,
        {
            let node = NodeID { index: i };
            let value = node.value_id();
            let gradient = node.gradient_id();
            value_producers.push(passes_touching(passes, &value, true));
            gradient_producers.push(passes_touching(passes, &gradient, true));
            value_consumers.push(passes_touching(passes, &value, false));
            gradient_consumers.push(passes_touching(passes, &gradient, false));
            i += 1;
        }
        let deps = Dependencies {
            value_producers,
            gradient_producers,
            value_consumers,
            gradient_consumers,
        };
        proof {
            assert forall|d: DataID| d.node.index < n implies lists_touching(
                #[trigger] deps.producers(d),
                passes@,
                d,
                true,
            ) by {
                let k = d.node.index as int;
                assert(d == DataID { node: NodeID { index: k as usize }, kind: d.kind });
                match d.kind {
                    DataKind::Value => {
                        assert(deps.producers(d) == deps.value_producers@[k]@);
                    },
                    DataKind::Gradient => {
                        assert(deps.producers(d) == deps.gradient_producers@[k]@);
                    },
                }
            }
            assert forall|d: DataID| d.node.index < n implies lists_touching(
                #[trigger] deps.consumers(d),
                passes@,
                d,
                false,
            ) by {
                let k = d.node.index as int;
                assert(d == DataID { node: NodeID { index: k as usize }, kind: d.kind });
                match d.kind {
                    DataKind::Value => {
                        assert(deps.consumers(d) == deps.value_consumers@[k]@);
                    },
                    DataKind::Gradient => {
                        assert(deps.consumers(d) == deps.gradient_consumers@[k]@);
                    },
                }
            }
        }
        deps
    }

    /// The passes that write `d`: its producers. None for a buffer that the
    /// graph does not hold.
    pub fn data_inputs(&self, d: &DataID) -> (r: &[PassID])
        ensures
            r@ == self.producers(*d),
    {
        match d.kind {
            DataKind::Value => {
                if d.node.index < self.value_producers.len() {
                    self.value_producers[d.node.index].as_slice()
                } else {
                    let none: &[PassID] = &[];
                    none
                }
            },
            DataKind::Gradient => {
                if d.node.index < self.gradient_producers.len() {
                    self.gradient_producers[d.node.index].as_slice()
                } else {
                    let none: &[PassID] = &[];
                    none
                }
            },
        }
    }

    /// The passes that read `d`: its consumers. None for a buffer that the
    /// graph does not hold.
    pub fn data_outputs(&self, d: &DataID) -> (r: &[PassID])
        ensures
            r@ == self.consumers(*d),
    {
        match d.kind {
            DataKind::Value => {
                if d.node.index < self.value_consumers.len() {
                    self.value_consumers[d.node.index].as_slice()
                } else {
                    let none: &[PassID] = &[];
                    none
                }
            },
            DataKind::Gradient => {
                if d.node.index < self.gradient_consumers.len() {
                    self.gradient_consumers[d.node.index].as_slice()
                } else {
                    let none: &[PassID] = &[];
                    none
                }
            },
        }
    }

    /// Whether no pass writes `d`, so that it can only come from outside.
    pub fn is_leaf(&self, d: &DataID) -> (b: bool)
        ensures
            b == (self.producers(*d).len() == 0),
    {
        self.data_inputs(d).len() == 0
    }
}

} // verus!
