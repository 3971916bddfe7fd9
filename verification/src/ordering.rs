//! The total order on chunk coordinates: reverse-lexicographic, comparing
//! the last axis first and falling through to earlier axes on ties.

use core::cmp::Ordering;
use vstd::prelude::*;

verus! {

/// Whether `a` comes strictly before `b` in reverse-lexicographic order:
/// decided by the last axis on which they differ.
pub open spec fn rlex_less(a: Seq<i32>, b: Seq<i32>) -> bool
    decreases a.len(),
{
    if a.len() == 0 || b.len() == 0 {
        false
    } else if a.last() < b.last() {
        true
    } else if a.last() > b.last() {
        false
    } else {
        rlex_less(a.drop_last(), b.drop_last())
    }
}

/// Nothing comes before itself.
pub proof fn lemma_rlex_irreflexive(a: Seq<i32>)
    ensures
        !rlex_less(a, a),
    decreases a.len(),
{
    if a.len() > 0 {
        lemma_rlex_irreflexive(a.drop_last());
    }
}

/// Coordinates of one dimension are totally ordered: exactly one of
/// `a < b`, `a == b`, `b < a` holds.
pub proof fn lemma_rlex_trichotomy(a: Seq<i32>, b: Seq<i32>)
    requires
        a.len() == b.len(),
    ensures
        rlex_less(a, b) || rlex_less(b, a) || a == b,
        rlex_less(a, b) ==> !rlex_less(b, a) && a != b,
        rlex_less(b, a) ==> !rlex_less(a, b) && a != b,
    decreases a.len(),
{
    lemma_rlex_irreflexive(a);
    lemma_rlex_irreflexive(b);
    if a.len() == 0 {
        assert(a =~= b);
    } else if a.last() == b.last() {
        lemma_rlex_trichotomy(a.drop_last(), b.drop_last());
        if a.drop_last() == b.drop_last() {
            assert(a =~= a.drop_last().push(a.last()));
            assert(b =~= b.drop_last().push(b.last()));
        }
        if a == b {
            assert(a.drop_last() =~= b.drop_last());
        }
    } else {
        if a == b {
            assert(a.last() == b.last());
        }
    }
}

/// The order carries across a middle coordinate.
pub proof fn lemma_rlex_transitive(a: Seq<i32>, b: Seq<i32>, c: Seq<i32>)
    requires
        rlex_less(a, b),
        rlex_less(b, c),
        a.len() == b.len(),
        b.len() == c.len(),
    ensures
        rlex_less(a, c),
    decreases a.len(),
{
    if a.last() == b.last() && b.last() == c.last() {
        lemma_rlex_transitive(a.drop_last(), b.drop_last(), c.drop_last());
    }
}

/// Compares two coordinate vectors of one dimension in reverse-lexicographic
/// order.
pub fn rlex_compare(a: &Vec<i32>, b: &Vec<i32>) -> (r: Ordering)
    requires
        a@.len() == b@.len(),
    ensures
        r == Ordering::Less <==> rlex_less(a@, b@),
        r == Ordering::Greater <==> rlex_less(b@, a@),
        r == Ordering::Equal <==> a@ == b@,
{
    proof {
        lemma_rlex_trichotomy(a@, b@);
        assert(a@.take(a@.len() as int) =~= a@);
        assert(b@.take(b@.len() as int) =~= b@);
    }
    let n = a.len();
    let mut i: usize = n;
    while i > 0
        invariant
            n == a@.len(),
            b@.len() == n,
            i <= n,
            forall|j: int| i <= j < n ==> #[trigger] a@[j] == b@[j],
            rlex_less(a@, b@) == rlex_less(a@.take(i as int), b@.take(i as int)),
            rlex_less(b@, a@) == rlex_less(b@.take(i as int), a@.take(i as int)),
            (a@ == b@) <==> (a@.take(i as int) == b@.take(i as int)),
        decreases i,
    {
        let j = i - 1;
        proof {
            assert(a@.take(i as int).last() == a@[j as int]);
            assert(b@.take(i as int).last() == b@[j as int]);
            assert(a@.take(i as int).drop_last() =~= a@.take(j as int));
            assert(b@.take(i as int).drop_last() =~= b@.take(j as int));
            if a@[j as int] == b@[j as int] {
                assert((a@.take(i as int) == b@.take(i as int)) <==> (a@.take(j as int) == b@.take(
                    j as int,
                ))) by {
                    if a@.take(j as int) == b@.take(j as int) {
                        assert(a@.take(i as int) =~= b@.take(i as int));
                    }
                    if a@.take(i as int) == b@.take(i as int) {
                        assert(a@.take(j as int) =~= a@.take(i as int).drop_last());
                    }
                }
            } else {
                assert(a@.take(i as int) != b@.take(i as int)) by {
                    assert(a@.take(i as int)[j as int] == a@[j as int]);
                }
            }
        }
        if a[j] < b[j] {
            return Ordering::Less;
        }
        if a[j] > b[j] {
            return Ordering::Greater;
        }
        i = j;
    }
    proof {
        assert(a@.take(0) =~= b@.take(0));
        assert(a@ =~= b@) by {
            assert(forall|j: int| 0 <= j < n ==> #[trigger] a@[j] == b@[j]);
        }
    }
    Ordering::Equal
}

/// A chunk coordinate wrapped with the reverse-lexicographic order, the
/// order a world iterates its chunks in.
#[derive(Debug, Clone)]
pub struct OrderedPoint<const D: usize> {
    pub coordinates: Vec<i32>,
}

impl<const D: usize> OrderedPoint<D> {
    /// Wraps a coordinate vector.
    pub fn new(coordinates: Vec<i32>) -> (r: Self)
        ensures
            r.coordinates@ == coordinates@,
    {
        OrderedPoint { coordinates }
    }
}

impl<const D: usize> PartialEq for OrderedPoint<D> {
    fn eq(&self, other: &Self) -> (r: bool) {
        crate::shape::coordinates_equal(&self.coordinates, &other.coordinates)
    }
}

impl<const D: usize> vstd::std_specs::cmp::PartialEqSpecImpl for OrderedPoint<D> {
    open spec fn obeys_eq_spec() -> bool {
        true
    }

    open spec fn eq_spec(&self, other: &Self) -> bool {
        self.coordinates@ == other.coordinates@
    }
}

impl<const D: usize> Eq for OrderedPoint<D> {

}

impl<const D: usize> PartialOrd for OrderedPoint<D> {
    fn partial_cmp(&self, other: &Self) -> (r: Option<Ordering>) {
        if self.coordinates.len() != other.coordinates.len() {
            return None;
        }
        Some(rlex_compare(&self.coordinates, &other.coordinates))
    }
}

impl<const D: usize> vstd::std_specs::cmp::PartialOrdSpecImpl for OrderedPoint<D> {
    open spec fn obeys_partial_cmp_spec() -> bool {
        true
    }

    open spec fn partial_cmp_spec(&self, other: &Self) -> Option<Ordering> {
        if self.coordinates@.len() != other.coordinates@.len() {
            None
        } else if rlex_less(self.coordinates@, other.coordinates@) {
            Some(Ordering::Less)
        } else if rlex_less(other.coordinates@, self.coordinates@) {
            Some(Ordering::Greater)
        } else {
            Some(Ordering::Equal)
        }
    }
}

/// A coordinate vector wrapped with the same reverse-lexicographic order.
#[derive(Debug, Clone)]
pub struct OrderedVector<const C: usize> {
    pub coordinates: Vec<i32>,
}

impl<const C: usize> OrderedVector<C> {
    /// Wraps a coordinate vector.
    pub fn new(coordinates: Vec<i32>) -> (r: Self)
        ensures
            r.coordinates@ == coordinates@,
    {
        OrderedVector { coordinates }
    }
}

impl<const C: usize> PartialEq for OrderedVector<C> {
    fn eq(&self, other: &Self) -> (r: bool) {
        crate::shape::coordinates_equal(&self.coordinates, &other.coordinates)
    }
}

impl<const C: usize> vstd::std_specs::cmp::PartialEqSpecImpl for OrderedVector<C> {
    open spec fn obeys_eq_spec() -> bool {
        true
    }

    open spec fn eq_spec(&self, other: &Self) -> bool {
        self.coordinates@ == other.coordinates@
    }
}

impl<const C: usize> Eq for OrderedVector<C> {

}

impl<const C: usize> PartialOrd for OrderedVector<C> {
    fn partial_cmp(&self, other: &Self) -> (r: Option<Ordering>) {
        if self.coordinates.len() != other.coordinates.len() {
            return None;
        }
        Some(rlex_compare(&self.coordinates, &other.coordinates))
    }
}

impl<const C: usize> vstd::std_specs::cmp::PartialOrdSpecImpl for OrderedVector<C> {
    open spec fn obeys_partial_cmp_spec() -> bool {
        true
    }

    open spec fn partial_cmp_spec(&self, other: &Self) -> Option<Ordering> {
        if self.coordinates@.len() != other.coordinates@.len() {
            None
        } else if rlex_less(self.coordinates@, other.coordinates@) {
            Some(Ordering::Less)
        } else if rlex_less(other.coordinates@, self.coordinates@) {
            Some(Ordering::Greater)
        } else {
            Some(Ordering::Equal)
        }
    }
}

} // verus!
