//! Node shapes: one constraint per axis, merged by intersection.

use vstd::prelude::*;

verus! {

/// What is known of the extent of one axis.
#[derive(Clone, Copy, Debug, PartialEq, Eq, Structural, Hash)]
pub enum NodeDim {
    /// The extent is fixed.
    Known(usize),
    /// Nothing is known of the extent.
    Unknown,
    /// The extent lies between `lower` and `upper`, both included.
    Interval { lower: usize, upper: usize },
}

/// Why an operation on shapes was refused.
#[derive(Clone, Copy, Debug, PartialEq, Eq, Structural, Hash)]
pub enum ShapeFault {
    /// The two shapes have different numbers of axes.
    RankMismatch { left: usize, right: usize },
    /// The constraints of this axis admit no common extent.
    Incompatible { axis: usize },
    /// This axis carries no constraint, so it has no least extent to settle on.
    Unconstrained { axis: usize },
    /// This axis is not yet fixed to one extent.
    Unresolved { axis: usize },
    /// The number of elements does not fit the machine word.
    TooLarge,
    /// The shape holds `found` elements where `expected` are called for.
    SizeMismatch { expected: usize, found: usize },
    /// The shapes were still changing when the allowed sweeps were used up.
    Unsettled,
}

/// The larger of two integers.
pub open spec fn int_max(a: int, b: int) -> int {
    if a >= b {
        a
    } else {
        b
    }
}

/// The smaller of two integers.
pub open spec fn int_min(a: int, b: int) -> int {
    if a <= b {
        a
    } else {
        b
    }
}

impl NodeDim {
    /// The least extent that the constraint admits.
    pub open spec fn low(self) -> int {
        match self {
            NodeDim::Known(x) => x as int,
            NodeDim::Unknown => 0,
            NodeDim::Interval { lower, upper } => lower as int,
        }
    }

    /// The greatest extent that the constraint admits.
    pub open spec fn high(self) -> int {
        match self {
            NodeDim::Known(x) => x as int,
            NodeDim::Unknown => usize::MAX as int,
            NodeDim::Interval { lower, upper } => upper as int,
        }
    }

    /// Whether an axis of extent `x` meets the constraint.
    pub open spec fn admits(self, x: int) -> bool {
        self.low() <= x <= self.high()
    }

    /// A constraint is well formed when it is in its shortest form: an
    /// interval holds at least two extents, since a single one is `Known`.
    pub open spec fn wf(self) -> bool {
        match self {
            NodeDim::Interval { lower, upper } => lower < upper,
            _ => true,
        }
    }

    /// The constraint that admits what both admit, or `None` where they have
    /// no extent in common. `Unknown` gives way to the other side; a single
    /// common extent is `Known`.
    pub open spec fn merge_spec(self, other: NodeDim) -> Option<NodeDim> {
        if self is Unknown {
            Some(other)
        } else if other is Unknown {
            Some(self)
        } else {
            let lo = int_max(self.low(), other.low());
            let hi = int_min(self.high(), other.high());
            if lo > hi {
                None
            } else if lo == hi {
                Some(NodeDim::Known(lo as usize))
            } else {
                Some(NodeDim::Interval { lower: lo as usize, upper: hi as usize })
            }
        }
    }

    /// The constraint fixed to its least extent, or `None` for `Unknown`,
    /// which names no least extent.
    pub open spec fn collapse_spec(self) -> Option<NodeDim> {
        match self {
            NodeDim::Known(x) => Some(NodeDim::Known(x)),
            NodeDim::Unknown => None,
            NodeDim::Interval { lower, upper } => Some(NodeDim::Known(lower)),
        }
    }

    /// An inclusive range of extents in its shortest form, or `None` where
    /// `lower` exceeds `upper`.
    pub fn interval(lower: usize, upper: usize) -> (r: Option<NodeDim>)
        ensures
            lower > upper ==> r is None,
            lower == upper ==> r == Some(NodeDim::Known(lower)),
            lower < upper ==> r == Some(NodeDim::Interval { lower, upper }),
            r is Some ==> r->0.wf(),
    {
        if lower > upper {
            None
        } else if lower == upper {
            Some(NodeDim::Known(lower))
        } else {
            Some(NodeDim::Interval { lower, upper })
        }
    }

    /// Whether the extent is fixed.
    pub fn is_known(&self) -> (b: bool)
        ensures
            b == (*self is Known),
    {
        match self {
            NodeDim::Known(_) => true,
            _ => false,
        }
    }

    /// The fixed extent, if there is one.
    pub fn extent(&self) -> (r: Option<usize>)
        ensures
            r == (match *self {
                NodeDim::Known(x) => Some(x),
                _ => None::<usize>,
            }),
    {
        match self {
            NodeDim::Known(x) => Some(*x),
            _ => None,
        }
    }

    /// Intersects two constraints.
    pub fn merge(&self, other: &NodeDim) -> (r: Option<NodeDim>)
        ensures
            r == self.merge_spec(*other),
    {
        match (*self, *other) {
            (NodeDim::Unknown, _) => Some(*other),
            (_, NodeDim::Unknown) => Some(*self),
            (NodeDim::Known(x), NodeDim::Known(y)) => {
                if x == y {
                    Some(NodeDim::Known(x))
                } else {
                    None
                }
            },
            (NodeDim::Known(x), NodeDim::Interval { lower, upper }) => {
                if lower <= x && x <= upper {
                    Some(NodeDim::Known(x))
                } else {
                    None
                }
            },
            (NodeDim::Interval { lower, upper }, NodeDim::Known(x)) => {
                if lower <= x && x <= upper {
                    Some(NodeDim::Known(x))
                } else {
                    None
                }
            },
            (
                NodeDim::Interval { lower: l1, upper: u1 },
                NodeDim::Interval { lower: l2, upper: u2 },
            ) => {
                let lo: usize = if l1 >= l2 {
                    l1
                } else {
                    l2
                };
                let hi: usize = if u1 <= u2 {
                    u1
                } else {
                    u2
                };
                if lo > hi {
                    None
                } else if lo == hi {
                    Some(NodeDim::Known(lo))
                } else {
                    Some(NodeDim::Interval { lower: lo, upper: hi })
                }
            },
        }
    }

    /// Fixes the constraint to its least extent.
    pub fn collapse_to_minimum(&self) -> (r: Option<NodeDim>)
        ensures
            r == self.collapse_spec(),
    {
        match *self {
            NodeDim::Known(x) => Some(NodeDim::Known(x)),
            NodeDim::Unknown => None,
            NodeDim::Interval { lower, upper } => Some(NodeDim::Known(lower)),
        }
    }
}

/// A merge admits exactly the extents that both sides admit, and fails exactly
/// where there is none.
pub proof fn lemma_dim_merge_is_intersection(a: NodeDim, b: NodeDim)
    ensures
        a.merge_spec(b) matches Some(m) ==> forall|x: int|
            0 <= x <= usize::MAX ==> (#[trigger] m.admits(x) <==> a.admits(x) && b.admits(x)),
        a.merge_spec(b) is None ==> forall|x: int| !(#[trigger] a.admits(x) && b.admits(x)),
        a.wf() && b.wf() && a.merge_spec(b) is Some ==> a.merge_spec(b)->0.wf(),
{
}

/// Merging constraints does not depend on their order.
pub proof fn lemma_dim_merge_commutative(a: NodeDim, b: NodeDim)
    ensures
        a.merge_spec(b) == b.merge_spec(a),
{
}

/// Merging a well-formed constraint with itself changes nothing.
pub proof fn lemma_dim_merge_idempotent(a: NodeDim)
    requires
        a.wf(),
    ensures
        a.merge_spec(a) == Some(a),
{
}

/// Merging a failed or successful merge with a further constraint.
pub open spec fn dim_merge_opt(a: Option<NodeDim>, b: Option<NodeDim>) -> Option<NodeDim> {
    match (a, b) {
        (Some(x), Some(y)) => x.merge_spec(y),
        _ => None,
    }
}

/// Merging three constraints gives the same whichever two are merged first.
pub proof fn lemma_dim_merge_associative(a: NodeDim, b: NodeDim, c: NodeDim)
    ensures
        dim_merge_opt(a.merge_spec(b), Some(c)) == dim_merge_opt(Some(a), b.merge_spec(c)),
{
}

/// Whether every axis of a shape is in its shortest form.
pub open spec fn shape_wf(s: Seq<NodeDim>) -> bool {
    forall|i: int| 0 <= i < s.len() ==> (#[trigger] s[i]).wf()
}

/// Whether two shapes have the same number of axes and agree on an extent for
/// each of them.
pub open spec fn shape_compatible(a: Seq<NodeDim>, b: Seq<NodeDim>) -> bool {
    &&& a.len() == b.len()
    &&& forall|i: int| 0 <= i < a.len() ==> (#[trigger] a[i].merge_spec(b[i])) is Some
}

/// The axis-wise merge of two shapes, or `None` where they are incompatible.
pub open spec fn shape_merge(a: Seq<NodeDim>, b: Seq<NodeDim>) -> Option<Seq<NodeDim>> {
    if shape_compatible(a, b) {
        Some(Seq::new(a.len(), |i: int| a[i].merge_spec(b[i])->0))
    } else {
        None
    }
}

/// Merging where either side may already have failed.
pub open spec fn shape_merge_opt(a: Option<Seq<NodeDim>>, b: Option<Seq<NodeDim>>) -> Option<
    Seq<NodeDim>,
> {
    match (a, b) {
        (Some(x), Some(y)) => shape_merge(x, y),
        _ => None,
    }
}

/// Whether every axis of a shape is fixed.
pub open spec fn shape_is_known(s: Seq<NodeDim>) -> bool {
    forall|i: int| 0 <= i < s.len() ==> (#[trigger] s[i]) is Known
}

/// Whether every axis of a shape carries a constraint.
pub open spec fn shape_is_constrained(s: Seq<NodeDim>) -> bool {
    forall|i: int| 0 <= i < s.len() ==> !((#[trigger] s[i]) is Unknown)
}

/// The shape with every axis fixed to its least extent.
pub open spec fn shape_collapse(s: Seq<NodeDim>) -> Seq<NodeDim> {
    Seq::new(s.len(), |i: int| NodeDim::Known(s[i].low() as usize))
}

/// The least extent of each axis; for a fixed shape, its extents.
pub open spec fn shape_extents(s: Seq<NodeDim>) -> Seq<usize> {
    Seq::new(s.len(), |i: int| s[i].low() as usize)
}

/// The product of a sequence of extents; 1 for the empty sequence.
pub open spec fn extents_product(e: Seq<usize>) -> int
    decreases e.len(),
{
    if e.len() == 0 {
        1
    } else {
        extents_product(e.drop_last()) * (e.last() as int)
    }
}

/// Whether `fault` is what a merge of `a` and `b` is refused with: the two
/// numbers of axes where they differ, and else the first axis on which the
/// two constraints have no extent in common.
pub open spec fn is_merge_fault(a: Seq<NodeDim>, b: Seq<NodeDim>, fault: ShapeFault) -> bool {
    if a.len() != b.len() {
        fault == (ShapeFault::RankMismatch { left: a.len() as usize, right: b.len() as usize })
    } else {
        exists|axis: int|
            {
                &&& fault == (ShapeFault::Incompatible { axis: axis as usize })
                &&& 0 <= axis < a.len()
                &&& a[axis].merge_spec(b[axis]) is None
                &&& forall|k: int| 0 <= k < axis ==> (#[trigger] a[k].merge_spec(b[k])) is Some
            }
    }
}

/// Whether `fault` names the first axis of `s` that carries no constraint.
pub open spec fn is_unconstrained_fault(s: Seq<NodeDim>, fault: ShapeFault) -> bool {
    exists|axis: int|
        {
            &&& fault == (ShapeFault::Unconstrained { axis: axis as usize })
            &&& 0 <= axis < s.len()
            &&& s[axis] is Unknown
            &&& forall|k: int| 0 <= k < axis ==> !((#[trigger] s[k]) is Unknown)
        }
}

/// Whether `fault` names the first axis of `s` that is not fixed.
pub open spec fn is_unresolved_fault(s: Seq<NodeDim>, fault: ShapeFault) -> bool {
    exists|axis: int|
        {
            &&& fault == (ShapeFault::Unresolved { axis: axis as usize })
            &&& 0 <= axis < s.len()
            &&& !(s[axis] is Known)
            &&& forall|k: int| 0 <= k < axis ==> (#[trigger] s[k]) is Known
        }
}

/// Whether `fault` is why a shape has no number of elements: the first axis
/// that is not fixed, or, for a fixed shape, that the number is too large.
pub open spec fn is_size_fault(s: Seq<NodeDim>, fault: ShapeFault) -> bool {
    if shape_is_known(s) {
        fault == ShapeFault::TooLarge
    } else {
        is_unresolved_fault(s, fault)
    }
}

/// A shape with every extent fixed to 1 left open: the axes along which a
/// tensor of that shape may be repeated.
pub open spec fn loosened(s: Seq<NodeDim>) -> Seq<NodeDim> {
    Seq::new(
        s.len(),
        |i: int|
            if s[i] == NodeDim::Known(1) {
                NodeDim::Unknown
            } else {
                s[i]
            },
    )
}

/// The shape of a node: one constraint per axis, outermost axis first.
#[derive(Debug, PartialEq, Eq)]
pub struct NodeShape {
    dims: Vec<NodeDim>,
}

impl View for NodeShape {
    type V = Seq<NodeDim>;

    closed spec fn view(&self) -> Seq<NodeDim> {
        self.dims@
    }
}

impl Clone for NodeShape {
    fn clone(&self) -> (r: Self)
        ensures
            r@ == self@,
    {
        let mut dims: Vec<NodeDim> = Vec::new();
        let mut i: usize = 0;
        while i < self.dims.len()
            invariant
                i <= self.dims.len(),
                dims@ == self.dims@.take(i as int),
            decreases self.dims.len() - i,
        {
            dims.push(self.dims[i]);
            assert(self.dims@.take(i + 1) =~= self.dims@.take(i as int).push(self.dims@[i as int]));
            i += 1;
        }
        assert(self.dims@.take(self.dims.len() as int) =~= self.dims@);
        NodeShape { dims }
    }
}

impl NodeShape {
    /// Whether every axis is in its shortest form.
    pub open spec fn wf(&self) -> bool {
        shape_wf(self@)
    }

    /// A shape from its constraints, refused where an interval holds fewer
    /// than two extents.
    pub fn new(dims: Vec<NodeDim>) -> (r: Option<NodeShape>)
        ensures
            r is Some <==> shape_wf(dims@),
            r matches Some(s) ==> s@ == dims@,
    {
        let mut i: usize = 0;
        while i < dims.len()
            invariant
                i <= dims.len(),
                forall|k: int| 0 <= k < i ==> (#[trigger] dims@[k]).wf(),
            decreases dims.len() - i,
        {
            match dims[i] {
                NodeDim::Interval { lower, upper } => {
                    if lower >= upper {
                        assert(!dims@[i as int].wf());
                        return None;
                    }
                },
                _ => {},
            }
            i += 1;
        }
        Some(NodeShape { dims })
    }

    /// The shape with every axis fixed to the given extent.
    pub fn fixed(extents: &[usize]) -> (r: NodeShape)
        ensures
            r@ == Seq::new(extents@.len(), |i: int| NodeDim::Known(extents@[i])),
            r.wf(),
            shape_is_known(r@),
            shape_extents(r@) == extents@,
    {
        let mut dims: Vec<NodeDim> = Vec::new();
        let mut i: usize = 0;
        while i < extents.len()
            invariant
                i <= extents.len(),
                dims@.len() == i,
                forall|k: int| 0 <= k < i ==> dims@[k] == NodeDim::Known(extents@[k]),
            decreases extents.len() - i,
        {
            dims.push(NodeDim::Known(extents[i]));
            i += 1;
        }
        let r = NodeShape { dims };
        assert(r@ =~= Seq::new(extents@.len(), |i: int| NodeDim::Known(extents@[i])));
        assert(shape_extents(r@) =~= extents@);
        r
    }

    /// The number of axes.
    pub fn ndim(&self) -> (n: usize)
        ensures
            n == self@.len(),
    {
        self.dims.len()
    }

    /// The constraints, outermost axis first.
    pub fn dimensions(&self) -> (dims: &Vec<NodeDim>)
        ensures
            dims@ == self@,
    {
        &self.dims
    }

    /// The constraint of one axis.
    pub fn dim(&self, axis: usize) -> (d: NodeDim)
        requires
            axis < self@.len(),
        ensures
            d == self@[axis as int],
    {
        self.dims[axis]
    }

    /// The shape with the constraint of one axis replaced.
    pub fn with_dim(&self, axis: usize, d: NodeDim) -> (r: NodeShape)
        requires
            axis < self@.len(),
        ensures
            r@ == self@.update(axis as int, d),
    {
        let mut r = self.clone();
        r.dims.set(axis, d);
        r
    }

    /// The shape with every extent fixed to 1 left open.
    pub fn loosen(&self) -> (r: NodeShape)
        ensures
            r@ == loosened(self@),
    {
        let mut dims: Vec<NodeDim> = Vec::new();
        let mut i: usize = 0;
        while i < self.dims.len()
            invariant
                i <= self.dims.len(),
                dims@.len() == i,
                forall|k: int| 0 <= k < i ==> dims@[k] == loosened(self.dims@)[k],
            decreases self.dims.len() - i,
        {
            let d = match self.dims[i] {
                NodeDim::Known(x) => if x == 1 {
                    NodeDim::Unknown
                } else {
                    NodeDim::Known(x)
                },
                other => other,
            };
            dims.push(d);
            i += 1;
        }
        let r = NodeShape { dims };
        assert(r@ =~= loosened(self@));
        r
    }

    /// Whether two shapes hold the same constraints.
    pub fn same_as(&self, other: &NodeShape) -> (b: bool)
        ensures
            b == (self@ == other@),
    {
        if self.dims.len() != other.dims.len() {
            return false;
        }
        let mut i: usize = 0;
        while i < self.dims.len()
            invariant
                i <= self.dims.len(),
                self.dims.len() == other.dims.len(),
                forall|k: int| 0 <= k < i ==> self.dims@[k] == other.dims@[k],
            decreases self.dims.len() - i,
        {
            if self.dims[i] != other.dims[i] {
                return false;
            }
            i += 1;
        }
        assert(self@ =~= other@);
        true
    }

    /// Whether every axis is fixed.
    pub fn is_known(&self) -> (b: bool)
        ensures
            b == shape_is_known(self@),
    {
        let mut i: usize = 0;
        while i < self.dims.len()
            invariant
                i <= self.dims.len(),
                forall|k: int| 0 <= k < i ==> (#[trigger] self.dims@[k]) is Known,
            decreases self.dims.len() - i,
        {
            if !self.dims[i].is_known() {
                return false;
            }
            i += 1;
        }
        true
    }

    /// Merges two shapes axis by axis. The shapes must have the same number
    /// of axes, and the two constraints of each axis an extent in common;
    /// otherwise the fault names the mismatch, or the first axis in conflict.
    pub fn merge(&self, other: &NodeShape) -> (r: Result<NodeShape, ShapeFault>)
        ensures
            r matches Ok(m) ==> shape_merge(self@, other@) == Some(m@),
            r is Err <==> shape_merge(self@, other@) is None,
            r matches Err(e) ==> is_merge_fault(self@, other@, e),
            self.wf() && other.wf() && r is Ok ==> r->Ok_0.wf(),
    {
        if self.dims.len() != other.dims.len() {
            return Err(
                ShapeFault::RankMismatch { left: self.dims.len(), right: other.dims.len() },
            );
        }
        let mut dims: Vec<NodeDim> = Vec::new();
        let mut i: usize = 0;
        while i < self.dims.len()
            invariant
                i <= self.dims.len(),
                self.dims.len() == other.dims.len(),
                dims@.len() == i,
                forall|k: int|
                    0 <= k < i ==> (#[trigger] self.dims@[k].merge_spec(other.dims@[k])) == Some(
                        dims@[k],
                    ),
            decreases self.dims.len() - i,
        {
            match self.dims[i].merge(&other.dims[i]) {
                Some(d) => {
                    dims.push(d);
                },
                None => {
                    assert(self@[i as int].merge_spec(other@[i as int]) is None);
                    return Err(ShapeFault::Incompatible { axis: i });
                },
            }
            i += 1;
        }
        let m = NodeShape { dims };
        proof {
            assert(shape_compatible(self@, other@));
            assert(m@ =~= shape_merge(self@, other@)->0);
            if self.wf() && other.wf() {
                assert forall|k: int| 0 <= k < m@.len() implies (#[trigger] m@[k]).wf() by {
                    lemma_dim_merge_is_intersection(self@[k], other@[k]);
                    assert(self@[k].merge_spec(other@[k]) == Some(m@[k]));
                }
            }
        }
        Ok(m)
    }

    /// Fixes every axis to its least admissible extent. An axis without any
    /// constraint has none: the shape is then left as it was, and the fault
    /// names the first such axis.
    pub fn collapse_ranges_to_minimum(&mut self) -> (r: Result<(), ShapeFault>)
        ensures
            r is Ok <==> shape_is_constrained(old(self)@),
            r is Ok ==> final(self)@ == shape_collapse(old(self)@),
            r is Ok ==> final(self).wf() && shape_is_known(final(self)@),
            r matches Err(e) ==> {
                &&& final(self)@ == old(self)@
                &&& is_unconstrained_fault(old(self)@, e)
            },
    {
        let mut dims: Vec<NodeDim> = Vec::new();
        let mut i: usize = 0;
        while i < self.dims.len()
            invariant
                i <= self.dims.len(),
                *self == *old(self),
                dims@.len() == i,
                forall|k: int| 0 <= k < i ==> !((#[trigger] self.dims@[k]) is Unknown),
                forall|k: int|
                    0 <= k < i ==> (#[trigger] dims@[k]) == NodeDim::Known(
                        self.dims@[k].low() as usize,
                    ),
            decreases self.dims.len() - i,
        {
            match self.dims[i].collapse_to_minimum() {
                Some(d) => {
                    dims.push(d);
                },
                None => {
                    assert(old(self)@[i as int] is Unknown);
                    return Err(ShapeFault::Unconstrained { axis: i });
                },
            }
            i += 1;
        }
        self.dims = dims;
        assert(self@ =~= shape_collapse(old(self)@));
        Ok(())
    }

    /// The extents of a fixed shape; the fault names the first axis that is
    /// not fixed.
    pub fn to_data_shape(&self) -> (r: Result<Vec<usize>, ShapeFault>)
        ensures
            r is Ok <==> shape_is_known(self@),
            r matches Ok(e) ==> e@ == shape_extents(self@),
            r matches Err(e) ==> is_unresolved_fault(self@, e),
    {
        let mut extents: Vec<usize> = Vec::new();
        let mut i: usize = 0;
        while i < self.dims.len()
            invariant
                i <= self.dims.len(),
                extents@.len() == i,
                forall|k: int| 0 <= k < i ==> (#[trigger] self.dims@[k]) is Known,
                forall|k: int| 0 <= k < i ==> (#[trigger] extents@[k]) == self.dims@[k].low(),
            decreases self.dims.len() - i,
        {
            match self.dims[i] {
                NodeDim::Known(x) => {
                    extents.push(x);
                },
                _ => {
                    assert(!(self@[i as int] is Known));
                    return Err(ShapeFault::Unresolved { axis: i });
                },
            }
            i += 1;
        }
        assert(extents@ =~= shape_extents(self@));
        Ok(extents)
    }
}

/// A product with a zero factor is zero.
pub proof fn lemma_product_with_zero(e: Seq<usize>, k: int)
    requires
        0 <= k < e.len(),
        e[k] == 0,
    ensures
        extents_product(e) == 0,
    decreases e.len(),
{
    if k == e.len() - 1 {
        assert(extents_product(e) == extents_product(e.drop_last()) * 0);
    } else {
        lemma_product_with_zero(e.drop_last(), k);
        assert(extents_product(e) == 0 * (e.last() as int));
    }
}

/// The product of the first `n + 1` extents is that of the first `n`, times
/// the next one.
pub proof fn lemma_product_step(e: Seq<usize>, n: int)
    requires
        0 <= n < e.len(),
    ensures
        extents_product(e.take(n + 1)) == extents_product(e.take(n)) * (e[n] as int),
{
    assert(e.take(n + 1).drop_last() =~= e.take(n));
}

/// Where no extent is zero, the product of a prefix is at least 1 and at most
/// the product of the whole.
pub proof fn lemma_product_prefix(e: Seq<usize>, n: int)
    requires
        0 <= n <= e.len(),
        forall|k: int| 0 <= k < e.len() ==> e[k] >= 1,
    ensures
        1 <= extents_product(e.take(n)) <= extents_product(e),
    decreases e.len() - n,
{
    if n == e.len() {
        assert(e.take(n) =~= e);
        lemma_product_positive(e);
    } else {
        lemma_product_prefix(e, n + 1);
        lemma_product_step(e, n);
        lemma_product_positive(e.take(n));
        let p = extents_product(e.take(n));
        let x = e[n] as int;
        assert(p <= p * x) by (nonlinear_arith)
            requires
                p >= 1,
                x >= 1,
        ;
    }
}

/// Where no extent is zero, the product is at least 1.
pub proof fn lemma_product_positive(e: Seq<usize>)
    requires
        forall|k: int| 0 <= k < e.len() ==> e[k] >= 1,
    ensures
        extents_product(e) >= 1,
    decreases e.len(),
{
    if e.len() > 0 {
        lemma_product_positive(e.drop_last());
        let p = extents_product(e.drop_last());
        let x = e.last() as int;
        assert(p * x >= 1) by (nonlinear_arith)
            requires
                p >= 1,
                x >= 1,
        ;
    }
}

/// The product of the extents, or `None` where it does not fit the machine
/// word.
pub fn checked_product(extents: &[usize]) -> (r: Option<usize>)
    ensures
        r is Some <==> extents_product(extents@) <= usize::MAX,
        r matches Some(n) ==> n == extents_product(extents@),
{
    let mut z: usize = 0;
    while z < extents.len()
        invariant
            z <= extents.len(),
            forall|k: int| 0 <= k < z ==> extents@[k] >= 1,
        decreases extents.len() - z,
    {
        if extents[z] == 0 {
            proof {
                lemma_product_with_zero(extents@, z as int);
            }
            return Some(0);
        }
        z += 1;
    }
    let mut acc: usize = 1;
    let mut i: usize = 0;
    proof {
        assert(extents@.take(0) =~= Seq::<usize>::empty());
        assert(extents_product(Seq::<usize>::empty()) == 1);
    }
    while i < extents.len()
        invariant
            i <= extents.len(),
            forall|k: int| 0 <= k < extents.len() ==> extents@[k] >= 1,
            acc == extents_product(extents@.take(i as int)),
        decreases extents.len() - i,
    {
        proof {
            lemma_product_step(extents@, i as int);
            lemma_product_prefix(extents@, i + 1);
        }
        match acc.checked_mul(extents[i]) {
            Some(next) => {
                acc = next;
            },
            None => {
                return None;
            },
        }
        i += 1;
    }
    proof {
        assert(extents@.take(extents.len() as int) =~= extents@);
    }
    Some(acc)
}

impl NodeShape {
    /// The number of elements of a fixed shape. The fault is `Unresolved`,
    /// naming the first axis that is not fixed, or else `TooLarge`, where the
    /// product of the extents does not fit the machine word.
    pub fn flat_size(&self) -> (r: Result<usize, ShapeFault>)
        ensures
            r is Ok <==> shape_is_known(self@) && extents_product(shape_extents(self@))
                <= usize::MAX,
            r matches Ok(n) ==> n == extents_product(shape_extents(self@)),
            r matches Err(e) ==> is_size_fault(self@, e),
    {
        match self.to_data_shape() {
            Ok(extents) => {
                match checked_product(extents.as_slice()) {
                    Some(n) => Ok(n),
                    None => Err(ShapeFault::TooLarge),
                }
            },
            Err(e) => Err(e),
        }
    }
}

/// Merging shapes does not depend on their order.
pub proof fn lemma_merge_commutative(a: Seq<NodeDim>, b: Seq<NodeDim>)
    ensures
        shape_merge(a, b) == shape_merge(b, a),
{
    if shape_compatible(a, b) {
        assert forall|i: int| 0 <= i < b.len() implies (#[trigger] b[i].merge_spec(a[i])) is Some by {
            assert(a[i].merge_spec(b[i]) is Some);
            lemma_dim_merge_commutative(a[i], b[i]);
        }
        assert(shape_merge(a, b)->0 =~= shape_merge(b, a)->0) by {
            assert forall|i: int| 0 <= i < a.len() implies a[i].merge_spec(b[i]) == b[i].merge_spec(
                a[i],
            ) by {
                lemma_dim_merge_commutative(a[i], b[i]);
            }
        }
    } else if shape_compatible(b, a) {
        assert forall|i: int| 0 <= i < a.len() implies (#[trigger] a[i].merge_spec(b[i])) is Some by {
            assert(b[i].merge_spec(a[i]) is Some);
            lemma_dim_merge_commutative(a[i], b[i]);
        }
    }
}

/// Merging a well-formed shape with itself gives that shape.
pub proof fn lemma_merge_idempotent(a: Seq<NodeDim>)
    requires
        shape_wf(a),
    ensures
        shape_merge(a, a) == Some(a),
{
    assert forall|i: int| 0 <= i < a.len() implies (#[trigger] a[i].merge_spec(a[i])) == Some(
        a[i],
    ) by {
        lemma_dim_merge_idempotent(a[i]);
    }
    assert(shape_compatible(a, a));
    assert(shape_merge(a, a)->0 =~= a);
}

/// Merging three shapes gives the same whichever two are merged first: the
/// same shape where all three agree, and a failure on both sides where they
/// do not.
pub proof fn lemma_merge_associative(a: Seq<NodeDim>, b: Seq<NodeDim>, c: Seq<NodeDim>)
    ensures
        shape_merge_opt(shape_merge(a, b), Some(c)) == shape_merge_opt(Some(a), shape_merge(b, c)),
{
    let left = shape_merge_opt(shape_merge(a, b), Some(c));
    let right = shape_merge_opt(Some(a), shape_merge(b, c));
    if a.len() != b.len() || b.len() != c.len() {
        return ;
    }
    let n = a.len() as int;
    assert forall|i: int| 0 <= i < n implies dim_merge_opt(
        #[trigger] a[i].merge_spec(b[i]),
        Some(c[i]),
    ) == dim_merge_opt(Some(a[i]), b[i].merge_spec(c[i])) by {
        lemma_dim_merge_associative(a[i], b[i], c[i]);
    }
    if left is Some {
        let ab = shape_merge(a, b)->0;
        assert(shape_compatible(a, b));
        assert(shape_compatible(ab, c));
        assert forall|i: int| 0 <= i < n implies (#[trigger] b[i].merge_spec(c[i])) is Some by {
            assert(a[i].merge_spec(b[i]) is Some);
            assert(ab[i].merge_spec(c[i]) is Some);
        }
        let bc = shape_merge(b, c)->0;
        assert forall|i: int| 0 <= i < n implies (#[trigger] a[i].merge_spec(bc[i])) is Some by {
            assert(a[i].merge_spec(b[i]) is Some);
            assert(ab[i].merge_spec(c[i]) is Some);
            assert(b[i].merge_spec(c[i]) is Some);
        }
        assert(shape_compatible(a, bc));
        assert(left->0 =~= right->0) by {
            assert forall|i: int| 0 <= i < n implies left->0[i] == right->0[i] by {
                assert(a[i].merge_spec(b[i]) is Some);
                assert(ab[i].merge_spec(c[i]) is Some);
                assert(b[i].merge_spec(c[i]) is Some);
                assert(a[i].merge_spec(bc[i]) is Some);
            }
        }
    } else if right is Some {
        let bc = shape_merge(b, c)->0;
        assert(shape_compatible(b, c));
        assert(shape_compatible(a, bc));
        assert forall|i: int| 0 <= i < n implies (#[trigger] a[i].merge_spec(b[i])) is Some by {
            assert(b[i].merge_spec(c[i]) is Some);
            assert(a[i].merge_spec(bc[i]) is Some);
        }
        let ab = shape_merge(a, b)->0;
        assert forall|i: int| 0 <= i < n implies (#[trigger] ab[i].merge_spec(c[i])) is Some by {
            assert(b[i].merge_spec(c[i]) is Some);
            assert(a[i].merge_spec(bc[i]) is Some);
            assert(a[i].merge_spec(b[i]) is Some);
        }
        assert(shape_compatible(ab, c));
        assert(false);
    }
}

} // verus!
