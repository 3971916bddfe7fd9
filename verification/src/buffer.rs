//! A chunk: one shape coupled to one storage buffer of matching capacity.

use crate::convert::extents_ok;
use crate::convert::index_of;
use crate::convert::position_of;
use crate::convert::product_of;
use crate::convert::valid_position;
use crate::shape::Shape;
use crate::storage::ContiguousMemory;
use crate::storage::ContiguousMemoryMut;
use crate::storage::generated_by;
use crate::storage::FromFn;
use crate::storage::Storage;
use vstd::prelude::*;

verus! {

/// A shape bound to a storage buffer holding one item per valid position.
///
/// The pairing's invariant — the buffer's length equals the shape's
/// capacity — is demanded at construction and kept by every operation, so
/// position-indexed access never leaves the buffer.
pub struct Buffer<T, S, const B: usize> {
    shape: S,
    buffer: T,
}

impl<T: Storage, S: Shape<B>, const B: usize> Buffer<T, S, B> {
    /// The shape half of the pairing.
    pub closed spec fn spec_shape(&self) -> S {
        self.shape
    }

    /// The storage half of the pairing.
    pub closed spec fn spec_storage(&self) -> T {
        self.buffer
    }

    /// The stored items, in index order.
    pub closed spec fn contents(&self) -> Seq<T::Item> {
        self.buffer.contents()
    }

    /// The pairing's invariant: a well-formed shape whose capacity is
    /// exactly the buffer's length.
    pub open spec fn wf(&self) -> bool {
        &&& self.spec_shape().wf()
        &&& self.contents().len() == product_of(self.spec_shape().spec_extents())
    }

    /// Couples `shape` with `buffer`. The buffer's length must equal the
    /// shape's capacity: a mismatch cannot construct a chunk at all.
    pub fn from_parts(shape: S, buffer: T) -> (r: Self)
        requires
            shape.wf(),
            buffer.contents().len() == product_of(shape.spec_extents()),
        ensures
            r.wf(),
            r.spec_shape() == shape,
            r.spec_storage() == buffer,
            r.contents() == buffer.contents(),
    {
        Buffer { shape, buffer }
    }

    /// The shape half of the pairing.
    pub fn shape(&self) -> (r: &S)
        ensures
            *r == self.spec_shape(),
    {
        &self.shape
    }

    /// The storage half of the pairing.
    pub fn storage(&self) -> (r: &T)
        ensures
            *r == self.spec_storage(),
            r.contents() == self.contents(),
    {
        &self.buffer
    }

    /// Splits the pairing back into its shape and storage.
    pub fn into_raw_parts(self) -> (r: (S, T))
        ensures
            r.0 == self.spec_shape(),
            r.1 == self.spec_storage(),
            r.1.contents() == self.contents(),
    {
        let Buffer { shape, buffer } = self;
        (shape, buffer)
    }
}

impl<T: Storage + ContiguousMemory, S: Shape<B>, const B: usize> Buffer<T, S, B> {
    /// The items in raw storage order.
    pub fn iter(&self) -> (r: &[T::Item])
        ensures
            r@ == self.contents(),
    {
        self.buffer.as_slice()
    }

    /// The item at `position`, or `None` when the position is out of the
    /// shape's range.
    pub fn get(&self, position: &Vec<i32>) -> (r: Option<&T::Item>)
        requires
            self.wf(),
            position@.len() == B,
        ensures
            match r {
                Some(item) => valid_position(self.spec_shape().spec_extents(), position@) && *item
                    == self.contents()[index_of(self.spec_shape().spec_extents(), position@)],
                None => !valid_position(self.spec_shape().spec_extents(), position@),
            },
    {
        proof {
            self.shape.wf_facts();
        }
        match self.shape.position_to_index(position) {
            Some(index) => {
                let slice = self.buffer.as_slice();
                Some(&slice[index])
            },
            None => None,
        }
    }

    /// The item at `position`; one name per access style.
    pub fn block(&self, position: &Vec<i32>) -> (r: Option<&T::Item>)
        requires
            self.wf(),
            position@.len() == B,
        ensures
            match r {
                Some(item) => valid_position(self.spec_shape().spec_extents(), position@) && *item
                    == self.contents()[index_of(self.spec_shape().spec_extents(), position@)],
                None => !valid_position(self.spec_shape().spec_extents(), position@),
            },
    {
        self.get(position)
    }

    /// A restartable cursor over every `(position, item)` pair, in the same
    /// order as `iter`.
    pub fn item_positions(&self) -> (r: ItemPositions<'_, T::Item>)
        requires
            self.wf(),
        ensures
            r.wf(),
            r.spec_extents() == self.spec_shape().spec_extents(),
            r.spec_items() == self.contents(),
            r.spec_cursor() == 0,
    {
        proof {
            self.shape.wf_facts();
        }
        ItemPositions { extents: self.shape.extents(), items: self.buffer.as_slice(), cursor: 0 }
    }

    /// Every valid position paired with its item: the positions of indices
    /// `0, 1, ...` in one vector, the items in storage order beside it.
    pub fn block_positions(&self) -> (r: (Vec<Vec<i32>>, &[T::Item]))
        requires
            self.wf(),
        ensures
            r.1@ == self.contents(),
            r.0@.len() == self.contents().len(),
            forall|i: int|
                0 <= i < r.0@.len() ==> #[trigger] r.0@[i]@ == position_of(
                    self.spec_shape().spec_extents(),
                    i,
                ),
    {
        proof {
            self.shape.wf_facts();
        }
        let capacity = self.shape.capacity();
        let mut positions: Vec<Vec<i32>> = Vec::new();
        let mut index: usize = 0;
        while index < capacity
            invariant
                self.wf(),
                capacity == product_of(self.spec_shape().spec_extents()),
                index <= capacity,
                positions@.len() == index,
                forall|i: int|
                    0 <= i < index ==> #[trigger] positions@[i]@ == position_of(
                        self.spec_shape().spec_extents(),
                        i,
                    ),
            decreases capacity - index,
        {
            proof {
                self.shape.wf_facts();
            }
            let position = self.shape.index_to_position(index).unwrap();
            positions.push(position);
            index = index + 1;
        }
        (positions, self.buffer.as_slice())
    }
}

impl<T: Storage + ContiguousMemoryMut, S: Shape<B>, const B: usize> Buffer<T, S, B> {
    /// Exclusive access to the whole storage; the shape cannot change
    /// through it, so the pairing stays intact as long as the length does.
    pub fn iter_mut(&mut self) -> (r: &mut T)
        requires
            old(self).wf(),
        ensures
            r.contents() == old(self).contents(),
            final(self).contents() == final(r).contents(),
            final(self).spec_shape() == old(self).spec_shape(),
            final(r).contents().len() == old(self).contents().len() ==> final(self).wf(),
    {
        &mut self.buffer
    }

    /// Exclusive access to the item at `position`, or `None` when the
    /// position is out of the shape's range.
    pub fn get_mut(&mut self, position: &Vec<i32>) -> (r: Option<&mut T::Item>)
        requires
            old(self).wf(),
            position@.len() == B,
        ensures
            r is Some ==> valid_position(old(self).spec_shape().spec_extents(), position@)
                && *r.unwrap() == old(self).contents()[index_of(
                old(self).spec_shape().spec_extents(),
                position@,
            )] && final(self).wf() && final(self).spec_shape() == old(self).spec_shape()
                && final(self).contents() == old(self).contents().update(
                index_of(old(self).spec_shape().spec_extents(), position@),
                *final(r.unwrap()),
            ),
            r is None ==> !valid_position(old(self).spec_shape().spec_extents(), position@)
                && *final(self) == *old(self),
    {
        proof {
            self.shape.wf_facts();
        }
        match self.shape.position_to_index(position) {
            Some(index) => Some(self.buffer.element_mut(index)),
            None => None,
        }
    }

    /// Stores `item` at `position`, handing back the item it replaces; an
    /// out-of-range position hands `item` itself back untouched.
    pub fn replace(&mut self, position: &Vec<i32>, item: T::Item) -> (r: Result<T::Item, T::Item>)
        requires
            old(self).wf(),
            position@.len() == B,
        ensures
            final(self).wf(),
            final(self).spec_shape() == old(self).spec_shape(),
            match r {
                Ok(prev) => valid_position(old(self).spec_shape().spec_extents(), position@)
                    && prev == old(self).contents()[index_of(
                    old(self).spec_shape().spec_extents(),
                    position@,
                )] && final(self).contents() == old(self).contents().update(
                    index_of(old(self).spec_shape().spec_extents(), position@),
                    item,
                ),
                Err(returned) => !valid_position(old(self).spec_shape().spec_extents(), position@)
                    && returned == item && *final(self) == *old(self),
            },
    {
        proof {
            self.shape.wf_facts();
        }
        match self.shape.position_to_index(position) {
            Some(index) => {
                let slot = self.buffer.element_mut(index);
                let mut item = item;
                core::mem::swap(slot, &mut item);
                Ok(item)
            },
            None => Err(item),
        }
    }
}

impl<T: Storage + FromFn, S: Shape<B>, const B: usize> Buffer<T, S, B> {
    /// A chunk over `shape` whose item at index `i` is `f(i)`; the generator
    /// runs once per index, in ascending index order.
    pub fn from_shape_index<F: Fn(usize) -> T::Item>(shape: S, f: F) -> (r: Self)
        requires
            shape.wf(),
            forall|i: usize|
                i < product_of(shape.spec_extents()) ==> #[trigger] call_requires(f, (i,)),
        ensures
            r.wf(),
            r.spec_shape() == shape,
            r.contents().len() == product_of(shape.spec_extents()),
            forall|i: int|
                0 <= i < r.contents().len() ==> call_ensures(
                    f,
                    (i as usize,),
                    #[trigger] r.contents()[i],
                ),
    {
        proof {
            shape.wf_facts();
        }
        let capacity = shape.capacity();
        let buffer = T::from_fn(capacity, f);
        Buffer { shape, buffer }
    }

    /// A chunk over `shape` whose item at each position `p` is `f(p)`,
    /// walking positions in ascending index order.
    pub fn from_shape_position<F: Fn(Vec<i32>) -> T::Item>(shape: S, f: F) -> (r: Self)
        requires
            shape.wf(),
            forall|p: Vec<i32>, i: usize|
                #![trigger call_requires(f, (p,)), position_of(shape.spec_extents(), i as int)]
                i < product_of(shape.spec_extents()) && p@ == position_of(
                    shape.spec_extents(),
                    i as int,
                ) ==> call_requires(f, (p,)),
        ensures
            r.wf(),
            r.spec_shape() == shape,
            r.contents().len() == product_of(shape.spec_extents()),
            generated_by(shape.spec_extents(), f, r.contents()),
    {
        proof {
            shape.wf_facts();
        }
        let extents = shape.extents();
        let buffer = T::from_position_fn(&extents, f);
        Buffer { shape, buffer }
    }

    /// A chunk over `shape` holding the item type's default at every
    /// position.
    pub fn from_shape_default(shape: S) -> (r: Self) where T::Item: Default
        requires
            shape.wf(),
        ensures
            r.wf(),
            r.spec_shape() == shape,
            r.contents().len() == product_of(shape.spec_extents()),
    {
        proof {
            shape.wf_facts();
        }
        let g = |index: usize| -> T::Item { Default::default() };
        let capacity = shape.capacity();
        let buffer = T::from_fn(capacity, g);
        Buffer { shape, buffer }
    }
}

/// A finite, restartable cursor over every `(position, item)` pair of a
/// chunk, in the same order as the raw storage.
pub struct ItemPositions<'a, I> {
    extents: Vec<usize>,
    items: &'a [I],
    cursor: usize,
}

impl<'a, I> ItemPositions<'a, I> {
    /// The extents of the chunk being walked.
    pub closed spec fn spec_extents(&self) -> Seq<usize> {
        self.extents@
    }

    /// The items being walked, in index order.
    pub closed spec fn spec_items(&self) -> Seq<I> {
        self.items@
    }

    /// The index of the next pair to yield.
    pub closed spec fn spec_cursor(&self) -> int {
        self.cursor as int
    }

    /// The cursor's invariant: one item per valid position.
    pub closed spec fn wf(&self) -> bool {
        &&& extents_ok(self.extents@)
        &&& self.items@.len() == product_of(self.extents@)
    }

    /// The next position paired with its item, or `None` once every pair
    /// has been yielded.
    pub fn next(&mut self) -> (r: Option<(Vec<i32>, &'a I)>)
        requires
            old(self).wf(),
        ensures
            final(self).wf(),
            final(self).spec_extents() == old(self).spec_extents(),
            final(self).spec_items() == old(self).spec_items(),
            match r {
                Some(pair) => old(self).spec_cursor() < old(self).spec_items().len()
                    && pair.0@ == position_of(old(self).spec_extents(), old(self).spec_cursor())
                    && *pair.1 == old(self).spec_items()[old(self).spec_cursor()] && final(self).spec_cursor() == old(self).spec_cursor() + 1,
                None => old(self).spec_cursor() >= old(self).spec_items().len() && *final(self)
                    == *old(self),
            },
    {
        if self.cursor < self.items.len() {
            let position = crate::convert::index_to_position(&self.extents, self.cursor).unwrap();
            let item = &self.items[self.cursor];
            self.cursor = self.cursor + 1;
            Some((position, item))
        } else {
            None
        }
    }
}

/// A chunk extended with an extra payload riding beside it.
pub struct WithPayload<Ch, P> {
    pub chunk: Ch,
    pub payload: P,
}

impl<Ch, P> WithPayload<Ch, P> {
    /// Couples a chunk with its payload.
    pub fn new(chunk: Ch, payload: P) -> (r: Self)
        ensures
            r.chunk == chunk,
            r.payload == payload,
    {
        WithPayload { chunk, payload }
    }
}

} // verus!
