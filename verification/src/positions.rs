//! Finite, restartable enumerations of every valid position of a shape, in
//! ascending index order.

use crate::convert::extents_ok;
use crate::convert::offset_sum;
use crate::convert::position_of;
use crate::convert::product_of;
use crate::shape::Multiform;
use crate::shape::Shape;
use vstd::prelude::*;

verus! {

/// Every valid position of a shape, yielded in ascending index order. A
/// fresh value always starts back at index zero.
pub struct Positions<const B: usize> {
    shape: Multiform<B>,
    cursor: usize,
}

impl<const B: usize> Positions<B> {
    /// The extents being enumerated.
    pub closed spec fn spec_extents(&self) -> Seq<usize> {
        self.shape.spec_extents()
    }

    /// The index of the next position to yield.
    pub closed spec fn spec_cursor(&self) -> int {
        self.cursor as int
    }

    /// The enumeration's invariant.
    pub closed spec fn wf(&self) -> bool {
        self.shape.wf()
    }

    /// An enumeration of every valid position of `extents`, starting at
    /// index zero.
    pub fn new(extents: Vec<usize>) -> (r: Self)
        requires
            extents_ok(extents@),
            extents@.len() == B,
        ensures
            r.wf(),
            r.spec_extents() == extents@,
            r.spec_cursor() == 0,
    {
        Positions { shape: Multiform::new(extents), cursor: 0 }
    }

    /// The extents being enumerated.
    pub fn extents(&self) -> (r: Vec<usize>)
        requires
            self.wf(),
        ensures
            r@ == self.spec_extents(),
    {
        self.shape.extents()
    }

    /// The next position, or `None` once every valid position has been
    /// yielded.
    pub fn next(&mut self) -> (r: Option<Vec<i32>>)
        requires
            old(self).wf(),
        ensures
            final(self).wf(),
            final(self).spec_extents() == old(self).spec_extents(),
            match r {
                Some(position) => old(self).spec_cursor() < product_of(old(self).spec_extents())
                    && position@ == position_of(old(self).spec_extents(), old(self).spec_cursor())
                    && final(self).spec_cursor() == old(self).spec_cursor() + 1,
                None => old(self).spec_cursor() >= product_of(old(self).spec_extents()) && *final(self) == *old(self),
            },
    {
        proof {
            self.shape.wf_facts();
        }
        match self.shape.index_to_position(self.cursor) {
            Some(position) => {
                self.cursor = self.cursor + 1;
                Some(position)
            },
            None => None,
        }
    }
}

/// Every valid position of a shape shifted by a constant offset, yielded in
/// ascending index order.
pub struct OffsetPositions<const B: usize> {
    shape: Multiform<B>,
    offset: Vec<i32>,
    cursor: usize,
}

impl<const B: usize> OffsetPositions<B> {
    /// The extents being enumerated.
    pub closed spec fn spec_extents(&self) -> Seq<usize> {
        self.shape.spec_extents()
    }

    /// The shift applied to every yielded position.
    pub closed spec fn spec_offset(&self) -> Seq<i32> {
        self.offset@
    }

    /// The index of the next position to yield.
    pub closed spec fn spec_cursor(&self) -> int {
        self.cursor as int
    }

    /// The enumeration's invariant: shifted coordinates stay inside `i32`.
    pub closed spec fn wf(&self) -> bool {
        &&& self.shape.wf()
        &&& self.offset@.len() == B
        &&& forall|i: int|
            0 <= i < B ==> #[trigger] self.offset@[i] + self.shape.spec_extents()[i] - 1
                <= i32::MAX
    }

    /// An enumeration of every valid position of `extents`, each shifted by
    /// `offset`, starting at index zero.
    pub fn new(extents: Vec<usize>, offset: Vec<i32>) -> (r: Self)
        requires
            extents_ok(extents@),
            extents@.len() == B,
            offset@.len() == B,
            forall|i: int|
                0 <= i < B ==> #[trigger] offset@[i] + extents@[i] - 1 <= i32::MAX,
        ensures
            r.wf(),
            r.spec_extents() == extents@,
            r.spec_offset() == offset@,
            r.spec_cursor() == 0,
    {
        OffsetPositions { shape: Multiform::new(extents), offset, cursor: 0 }
    }

    /// The extents being enumerated.
    pub fn extents(&self) -> (r: Vec<usize>)
        requires
            self.wf(),
        ensures
            r@ == self.spec_extents(),
    {
        self.shape.extents()
    }

    /// The shift applied to every yielded position.
    pub fn offset(&self) -> (r: &Vec<i32>)
        ensures
            r@ == self.spec_offset(),
    {
        &self.offset
    }

    /// The next shifted position, or `None` once every valid position has
    /// been yielded.
    pub fn next(&mut self) -> (r: Option<Vec<i32>>)
        requires
            old(self).wf(),
        ensures
            final(self).wf(),
            final(self).spec_extents() == old(self).spec_extents(),
            final(self).spec_offset() == old(self).spec_offset(),
            match r {
                Some(position) => old(self).spec_cursor() < product_of(old(self).spec_extents())
                    && position@ == offset_sum(
                    position_of(old(self).spec_extents(), old(self).spec_cursor()),
                    old(self).spec_offset(),
                ) && final(self).spec_cursor() == old(self).spec_cursor() + 1,
                None => old(self).spec_cursor() >= product_of(old(self).spec_extents()) && *final(self) == *old(self),
            },
    {
        proof {
            self.shape.wf_facts();
        }
        let extents = self.shape.extents();
        match crate::convert::index_to_position_offset(&extents, &self.offset, self.cursor) {
            Some(position) => {
                self.cursor = self.cursor + 1;
                Some(position)
            },
            None => None,
        }
    }
}

} // verus!
