//! Sets of buffers, held as one flag per node and kind.

use crate::id::{DataID, DataKind};
use vstd::prelude::*;

verus! {

/// A set of buffers of the first `n` nodes of a graph.
#[derive(Debug)]
pub struct DataFlags {
    value: Vec<bool>,
    gradient: Vec<bool>,
}

impl View for DataFlags {
    type V = Set<DataID>;

    open spec fn view(&self) -> Set<DataID> {
        Set::new(|d: DataID| self.has(d))
    }
}

impl DataFlags {
    /// A set holds only buffers of the nodes it covers.
    pub proof fn lemma_has_in_range(&self, d: DataID)
        requires
            self.wf(),
            self.has(d),
        ensures
            d.node.index < self.node_count(),
    {
    }

    /// The number of nodes whose buffers the set can hold.
    pub closed spec fn node_count(&self) -> nat {
        self.value@.len()
    }

    /// The two tables are of one length.
    pub closed spec fn wf(&self) -> bool {
        self.gradient@.len() == self.value@.len()
    }

    /// Whether the set holds `d`.
    pub closed spec fn has(&self, d: DataID) -> bool {
        match d.kind {
            DataKind::Value => d.node.index < self.value@.len() && self.value@[d.node.index as int],
            DataKind::Gradient => d.node.index < self.gradient@.len()
                && self.gradient@[d.node.index as int],
        }
    }

    /// The empty set over `n` nodes.
    pub fn new(n: usize) -> (s: DataFlags)
        ensures
            s.wf(),
            s.node_count() == n,
            forall|d: DataID| !s.has(d),
    {
        let mut value: Vec<bool> = Vec::new();
        let mut gradient: Vec<bool> = Vec::new();
        let mut i: usize = 0;
        while i < n
            invariant
                i <= n,
                value@.len() == i,
                gradient@.len() == i,
                forall|k: int| 0 <= k < i ==> !value@[k] && !gradient@[k],
            decreases n - i,
        {
            value.push(false);
            gradient.push(false);
            i += 1;
        }
        DataFlags { value, gradient }
    }

    /// Whether the set holds `d`.
    pub fn contains(&self, d: &DataID) -> (b: bool)
        ensures
            b == self.has(*d),
    {
        match d.kind {
            DataKind::Value => d.node.index < self.value.len() && self.value[d.node.index],
            DataKind::Gradient => d.node.index < self.gradient.len() && self.gradient[d.node.index],
        }
    }

    /// Adds `d` to the set. A buffer of a node that the set does not cover
    /// is not added, and `false` is returned.
    pub fn insert(&mut self, d: &DataID) -> (added: bool)
        ensures
            final(self).node_count() == old(self).node_count(),
            old(self).wf() ==> final(self).wf(),
            old(self).wf() ==> added == (d.node.index < old(self).node_count()),
            forall|e: DataID| final(self).has(e) == (old(self).has(e) || (added && e == *d)),
    {
        match d.kind {
            DataKind::Value => {
                if d.node.index < self.value.len() {
                    self.value.set(d.node.index, true);
                    assert forall|e: DataID| self.has(e) == (old(self).has(e) || e == *d) by {
                        if e.kind == DataKind::Value && e.node.index == d.node.index {
                            assert(e == *d);
                        }
                    }
                    true
                } else {
                    false
                }
            },
            DataKind::Gradient => {
                if d.node.index < self.gradient.len() {
                    self.gradient.set(d.node.index, true);
                    assert forall|e: DataID| self.has(e) == (old(self).has(e) || e == *d) by {
                        if e.kind == DataKind::Gradient && e.node.index == d.node.index {
                            assert(e == *d);
                        }
                    }
                    true
                } else {
                    false
                }
            },
        }
    }
}

} // verus!
