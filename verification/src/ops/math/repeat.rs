//! Repeating a tensor along axes of extent 1 to the extents of another: which
//! extents allow it, and which element of the smaller tensor each element of
//! the larger one reads.

use crate::shape::{checked_product, extents_product, lemma_product_step};
use vstd::prelude::*;

verus! {

/// Whether a tensor of extents `from` can be repeated to the extents `to`:
/// with the axes aligned at the innermost one, `from` has no more axes than
/// `to`, and each of its extents equals that of `to` or is 1.
pub open spec fn broadcastable(from: Seq<usize>, to: Seq<usize>) -> bool {
    &&& from.len() <= to.len()
    &&& forall|i: int|
        0 <= i < from.len() ==> (#[trigger] from[i]) == to[to.len() - from.len() + i] || from[i]
            == 1
}

/// The position, in a tensor of extents `from` stored row by row, of the
/// element that position `flat` of its repetition to the extents `to` reads:
/// the coordinate of each axis is kept, but is 0 where the extent of `from`
/// is 1, and the axes that `from` lacks are dropped.
pub open spec fn repeat_index(from: Seq<usize>, to: Seq<usize>, flat: int) -> int
    decreases to.len(),
{
    if to.len() == 0 || from.len() == 0 {
        0
    } else {
        let t = to.last() as int;
        let s = from.last() as int;
        let c = if s == 1 {
            0
        } else {
            flat % t
        };
        repeat_index(from.drop_last(), to.drop_last(), flat / t) * s + c
    }
}

/// Whether a tensor of extents `from` can be repeated to the extents `to`.
pub fn can_broadcast(from: &[usize], to: &[usize]) -> (b: bool)
    ensures
        b == broadcastable(from@, to@),
{
    if from.len() > to.len() {
        return false;
    }
    let shift = to.len() - from.len();
    let mut i: usize = 0;
    while i < from.len()
        invariant
            i <= from.len(),
            from.len() <= to.len(),
            shift == to.len() - from.len(),
            forall|k: int|
                0 <= k < i ==> (#[trigger] from@[k]) == to@[to@.len() - from@.len() + k] || from@[k]
                    == 1,
        decreases from.len() - i,
    {
        if from[i] != to[shift + i] && from[i] != 1 {
            return false;
        }
        i += 1;
    }
    true
}

/// Dropping the innermost axis of both keeps two lists of extents
/// broadcastable.
pub proof fn lemma_broadcastable_prefix(from: Seq<usize>, to: Seq<usize>)
    requires
        broadcastable(from, to),
        from.len() > 0,
    ensures
        broadcastable(from.drop_last(), to.drop_last()),
        from.last() == to.last() || from.last() == 1,
{
    let f = from.drop_last();
    let t = to.drop_last();
    assert forall|i: int| 0 <= i < f.len() implies (#[trigger] f[i]) == t[t.len() - f.len() + i]
        || f[i] == 1 by {
        assert(from[i] == to[to.len() - from.len() + i] || from[i] == 1);
    }
    assert(from[from.len() - 1] == to[to.len() - from.len() + (from.len() - 1)] || from[from.len()
        - 1] == 1);
}

/// The element that position `flat` of the repetition reads, where only the
/// first `nf` axes of `from` and the first `nt` axes of `to` are counted.
fn source_index_within(from: &[usize], to: &[usize], nf: usize, nt: usize, flat: usize) -> (r:
    usize)
    requires
        nf <= from@.len(),
        nt <= to@.len(),
        broadcastable(from@.take(nf as int), to@.take(nt as int)),
        flat < extents_product(to@.take(nt as int)),
        extents_product(from@.take(nf as int)) <= usize::MAX,
    ensures
        r == repeat_index(from@.take(nf as int), to@.take(nt as int), flat as int),
        r < extents_product(from@.take(nf as int)),
    decreases nt,
{
    let ghost f = from@.take(nf as int);
    let ghost t = to@.take(nt as int);
    if nt == 0 || nf == 0 {
        proof {
            if nf == 0 {
                assert(f =~= Seq::<usize>::empty());
                assert(extents_product(f) == 1);
            }
        }
        return 0;
    }
    let extent = to[nt - 1];
    let own = from[nf - 1];
    proof {
        lemma_broadcastable_prefix(f, t);
        assert(f.drop_last() =~= from@.take(nf - 1));
        assert(t.drop_last() =~= to@.take(nt - 1));
        lemma_product_step(to@, nt - 1);
        lemma_product_step(from@, nf - 1);
        let pt = extents_product(to@.take(nt - 1));
        let pf = extents_product(from@.take(nf - 1));
        lemma_product_nonnegative(to@.take(nt - 1));
        lemma_product_nonnegative(from@.take(nf - 1));
        assert(extent > 0 && pt > 0) by (nonlinear_arith)
            requires
                0 <= flat < pt * extent,
                pt >= 0,
                extent >= 0,
        ;
        assert(own >= 1);
        assert(pf <= pf * own) by (nonlinear_arith)
            requires
                pf >= 0,
                own >= 1,
        ;
        let whole = flat as int;
        let width = extent as int;
        assert(whole / width < pt && 0 <= whole % width < width) by (nonlinear_arith)
            requires
                0 <= whole < pt * width,
                width > 0,
        ;
    }
    let rest = source_index_within(from, to, nf - 1, nt - 1, flat / extent);
    let coordinate: usize = if own == 1 {
        0
    } else {
        flat % extent
    };
    proof {
        let pf = extents_product(from@.take(nf - 1));
        assert(rest * own + coordinate < pf * own) by (nonlinear_arith)
            requires
                0 <= rest < pf,
                0 <= coordinate < own,
        ;
    }
    rest * own + coordinate
}

/// A product of extents is not negative.
pub proof fn lemma_product_nonnegative(e: Seq<usize>)
    ensures
        extents_product(e) >= 0,
    decreases e.len(),
{
    if e.len() > 0 {
        lemma_product_nonnegative(e.drop_last());
        let p = extents_product(e.drop_last());
        let x = e.last() as int;
        assert(p * x >= 0) by (nonlinear_arith)
            requires
                p >= 0,
                x >= 0,
        ;
    }
}

/// The position, in a tensor of extents `from`, of the element that position
/// `flat` of its repetition to the extents `to` reads. `from` is the shape of
/// a buffer, so its number of elements fits the machine word.
pub fn source_index(from: &[usize], to: &[usize], flat: usize) -> (r: usize)
    requires
        broadcastable(from@, to@),
        flat < extents_product(to@),
        extents_product(from@) <= usize::MAX,
    ensures
        r == repeat_index(from@, to@, flat as int),
        r < extents_product(from@),
{
    proof {
        assert(from@.take(from@.len() as int) =~= from@);
        assert(to@.take(to@.len() as int) =~= to@);
    }
    source_index_within(from, to, from.len(), to.len(), flat)
}

/// Repeating a tensor to its own extents repeats nothing: every position
/// reads the element at the same position. Additions to a target of the
/// extents of what is added therefore never meet in one element.
pub proof fn lemma_repeat_to_itself_is_identity(extents: Seq<usize>, flat: int)
    requires
        0 <= flat < extents_product(extents),
    ensures
        repeat_index(extents, extents, flat) == flat,
    decreases extents.len(),
{
    if extents.len() == 0 {
        assert(extents_product(extents) == 1);
    } else {
        let t = extents.last() as int;
        let rest = extents.drop_last();
        lemma_product_nonnegative(rest);
        let p = extents_product(rest);
        assert(t > 0 && p > 0 && flat / t < p && flat == (flat / t) * t + flat % t && 0 <= flat / t
            && 0 <= flat % t < t) by (nonlinear_arith)
            requires
                0 <= flat < p * t,
                p >= 0,
                t >= 0,
        ;
        lemma_repeat_to_itself_is_identity(rest, flat / t);
        if t == 1 {
            assert(flat % 1 == 0);
        }
    }
}

/// A copy of a list of extents.
fn copy_extents(list: &[usize]) -> (r: Vec<usize>)
    ensures
        r@ == list@,
{
    let mut r: Vec<usize> = Vec::new();
    let mut i: usize = 0;
    while i < list.len()
        invariant
            i <= list.len(),
            r@ == list@.take(i as int),
        decreases list.len() - i,
    {
        r.push(list[i]);
        assert(list@.take(i + 1) =~= list@.take(i as int).push(list@[i as int]));
        i += 1;
    }
    assert(list@.take(list.len() as int) =~= list@);
    r
}

/// The repetition of a tensor of extents `from` to the extents `to`, checked
/// once so that each position can be looked up without further conditions.
#[derive(Debug)]
pub struct RepeatMap {
    from: Vec<usize>,
    to: Vec<usize>,
    len: usize,
}

impl RepeatMap {
    /// The extents of the tensor that is repeated.
    pub closed spec fn from_extents(&self) -> Seq<usize> {
        self.from@
    }

    /// The extents that it is repeated to.
    pub closed spec fn to_extents(&self) -> Seq<usize> {
        self.to@
    }

    /// The extents allow the repetition, and both tensors have a number of
    /// elements that fits the machine word.
    #[verifier::type_invariant]
    spec fn wf(self) -> bool {
        &&& broadcastable(self.from@, self.to@)
        &&& extents_product(self.from@) <= usize::MAX
        &&& self.len == extents_product(self.to@)
    }

    /// The repetition of `from` to `to`, where the extents allow it and the
    /// number of elements of each fits the machine word.
    pub fn new(from: &[usize], to: &[usize]) -> (r: Option<RepeatMap>)
        ensures
            r is Some <==> {
                &&& broadcastable(from@, to@)
                &&& extents_product(from@) <= usize::MAX
                &&& extents_product(to@) <= usize::MAX
            },
            r matches Some(map) ==> map.from_extents() == from@ && map.to_extents() == to@,
    {
        if !can_broadcast(from, to) {
            return None;
        }
        if checked_product(from).is_none() {
            return None;
        }
        match checked_product(to) {
            Some(len) => Some(RepeatMap { from: copy_extents(from), to: copy_extents(to), len }),
            None => None,
        }
    }

    /// The number of elements of the repetition.
    pub fn len(&self) -> (n: usize)
        ensures
            n == extents_product(self.to_extents()),
    {
        proof {
            use_type_invariant(self);
        }
        self.len
    }

    /// The position, in the tensor that is repeated, of the element that
    /// position `flat` of the repetition reads; `None` for a position beyond
    /// the repetition.
    pub fn source(&self, flat: usize) -> (r: Option<usize>)
        ensures
            r is Some <==> flat < extents_product(self.to_extents()),
            r matches Some(i) ==> {
                &&& i == repeat_index(self.from_extents(), self.to_extents(), flat as int)
                &&& i < extents_product(self.from_extents())
            },
    {
        proof {
            use_type_invariant(self);
        }
        if flat < self.len {
            Some(source_index(self.from.as_slice(), self.to.as_slice(), flat))
        } else {
            None
        }
    }
}

} // verus!
