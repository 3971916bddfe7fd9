//! The backing buffer behind a chunk: a contiguous run of items addressed
//! by flat index.

use crate::convert;
use crate::convert::extents_ok;
use crate::convert::position_of;
use crate::convert::product_of;
use vstd::prelude::*;

verus! {

/// Whether `items` was generated position by position: there is a run of
/// position arguments, one per item, where argument `j` carries the position
/// that index `j` encodes inside `extents` and item `j` is a result of `f`
/// on it.
pub open spec fn generated_by<I, F: Fn(Vec<i32>) -> I>(
    extents: Seq<usize>,
    f: F,
    items: Seq<I>,
) -> bool {
    exists|ws: Seq<Vec<i32>>|
        #![trigger ws.len()]
        ws.len() == items.len() && forall|j: int|
            0 <= j < items.len() ==> (#[trigger] ws[j])@ == position_of(extents, j)
                && call_ensures(f, (ws[j],), items[j])
}

/// What `generated_by` gives for one index: some position argument with that
/// index's encoded position produced the item.
pub proof fn lemma_generated_by_index<I, F: Fn(Vec<i32>) -> I>(
    extents: Seq<usize>,
    f: F,
    items: Seq<I>,
    i: int,
)
    requires
        generated_by(extents, f, items),
        0 <= i < items.len(),
    ensures
        exists|p: Vec<i32>| p@ == position_of(extents, i) && call_ensures(f, (p,), items[i]),
{
    let ws = choose|ws: Seq<Vec<i32>>|
        #![trigger ws.len()]
        ws.len() == items.len() && forall|j: int|
            0 <= j < items.len() ==> (#[trigger] ws[j])@ == position_of(extents, j)
                && call_ensures(f, (ws[j],), items[j]);
    assert(ws[i]@ == position_of(extents, i) && call_ensures(f, (ws[i],), items[i]));
}

/// A buffer of items.
pub trait Storage: Sized {
    type Item;

    /// The stored items, in index order.
    spec fn contents(&self) -> Seq<Self::Item>;

    /// How many items the buffer holds.
    fn length(&self) -> (r: usize)
        ensures
            r == self.contents().len(),
    ;
}

/// A buffer whose items can be read out by value.
pub trait ReadStorage: Storage {
    /// The item at `index`, by value; `None` exactly when the index is out
    /// of bounds.
    fn read(&self, index: usize) -> (r: Option<Self::Item>)
        ensures
            match r {
                Some(v) => index < self.contents().len() && v == self.contents()[index as int],
                None => index >= self.contents().len(),
            },
    ;
}

/// A buffer laid out as one contiguous run.
pub trait ContiguousMemory: Storage {
    /// The items as a slice, in index order.
    fn as_slice(&self) -> (r: &[Self::Item])
        ensures
            r@ == self.contents(),
    ;
}

/// A contiguous buffer whose items can be written in place.
pub trait ContiguousMemoryMut: ContiguousMemory {
    /// Exclusive access to the item at `index`.
    fn element_mut(&mut self, index: usize) -> (r: &mut Self::Item)
        requires
            index < old(self).contents().len(),
        ensures
            *r == old(self).contents()[index as int],
            final(self).contents() == old(self).contents().update(index as int, *final(r)),
    ;
}

/// A buffer that can be built by calling a generator once per index, in
/// ascending index order.
pub trait FromFn: Storage {
    /// A buffer of `capacity` items where item `i` is `f(i)`.
    fn from_fn<F: Fn(usize) -> Self::Item>(capacity: usize, f: F) -> (r: Self)
        requires
            forall|i: usize| i < capacity ==> #[trigger] call_requires(f, (i,)),
        ensures
            r.contents().len() == capacity,
            forall|i: int|
                0 <= i < capacity ==> call_ensures(f, (i as usize,), #[trigger] r.contents()[i]),
    ;

    /// A buffer with one item per valid position of `extents`, where the
    /// item at index `i` is `f` applied to the position encoding `i`; the
    /// generator runs in ascending index order.
    fn from_position_fn<F: Fn(Vec<i32>) -> Self::Item>(extents: &Vec<usize>, f: F) -> (r: Self)
        requires
            extents_ok(extents@),
            forall|p: Vec<i32>, i: usize|
                #![trigger call_requires(f, (p,)), position_of(extents@, i as int)]
                i < product_of(extents@) && p@ == position_of(extents@, i as int)
                    ==> call_requires(f, (p,)),
        ensures
            r.contents().len() == product_of(extents@),
            generated_by(extents@, f, r.contents()),
    ;
}

impl<T> Storage for Vec<T> {
    type Item = T;

    open spec fn contents(&self) -> Seq<T> {
        self@
    }

    fn length(&self) -> (r: usize) {
        self.len()
    }
}

impl<T: Copy> ReadStorage for Vec<T> {
    fn read(&self, index: usize) -> (r: Option<T>) {
        if index < self.len() {
            Some(self[index])
        } else {
            None
        }
    }
}

impl<T> ContiguousMemory for Vec<T> {
    fn as_slice(&self) -> (r: &[T]) {
        self.as_slice()
    }
}

impl<T> ContiguousMemoryMut for Vec<T> {
    fn element_mut(&mut self, index: usize) -> (r: &mut T) {
        &mut self[index]
    }
}

impl<T> FromFn for Vec<T> {
    fn from_fn<F: Fn(usize) -> T>(capacity: usize, f: F) -> (r: Self) {
        let mut buffer: Vec<T> = Vec::new();
        let mut index: usize = 0;
        while index < capacity
            invariant
                index <= capacity,
                buffer@.len() == index,
                forall|i: usize| i < capacity ==> #[trigger] call_requires(f, (i,)),
                forall|i: int|
                    0 <= i < index ==> call_ensures(f, (i as usize,), #[trigger] buffer@[i]),
            decreases capacity - index,
        {
            buffer.push(f(index));
            index = index + 1;
        }
        buffer
    }

    fn from_position_fn<F: Fn(Vec<i32>) -> T>(extents: &Vec<usize>, f: F) -> (r: Self) {
        let capacity = convert::capacity(extents);
        let mut buffer: Vec<T> = Vec::new();
        let mut index: usize = 0;
        let ghost mut ws: Seq<Vec<i32>> = Seq::empty();
        while index < capacity
            invariant
                extents_ok(extents@),
                capacity == product_of(extents@),
                forall|p: Vec<i32>, i: usize|
                    #![trigger call_requires(f, (p,)), position_of(extents@, i as int)]
                    i < product_of(extents@) && p@ == position_of(extents@, i as int)
                        ==> call_requires(f, (p,)),
                index <= capacity,
                buffer@.len() == index,
                ws.len() == index,
                forall|j: int|
                    0 <= j < index ==> (#[trigger] ws[j])@ == position_of(extents@, j)
                        && call_ensures(f, (ws[j],), buffer@[j]),
            decreases capacity - index,
        {
            let position = convert::index_to_position(extents, index).unwrap();
            proof {
                ws = ws.push(position);
            }
            let item = f(position);
            buffer.push(item);
            index = index + 1;
        }
        proof {
            assert(ws.len() == buffer@.len() && forall|j: int|
                0 <= j < buffer@.len() ==> (#[trigger] ws[j])@ == position_of(extents@, j)
                    && call_ensures(f, (ws[j],), buffer@[j]));
        }
        buffer
    }
}

} // verus!
