//! Shapes whose extents are chosen entirely at run time, and a chunk that
//! owns one together with its storage.

use crate::convert;
use crate::convert::extents_ok;
use crate::convert::product_of;
use crate::resolve;
use crate::shape::Shape;
use crate::shape::WorldCoordinate;
use crate::storage::FromFn;
use crate::uniform::uniform_extents;
use crate::uniform::uniform_ok;
use vstd::prelude::*;

verus! {

/// A runtime uniform shape: one stride broadcast over `B` axes.
#[derive(Debug, Clone, Copy, PartialEq, Eq, Hash)]
pub struct DynamicUniformShape<const B: usize> {
    stride: usize,
}

impl<const B: usize> DynamicUniformShape<B> {
    /// A uniform shape with the given stride.
    pub fn new(stride: usize) -> (r: Self)
        requires
            uniform_ok(stride, B as nat),
        ensures
            r.wf(),
            r.spec_extents() == uniform_extents(stride, B as nat),
    {
        DynamicUniformShape { stride }
    }

    /// The shared per-axis stride.
    pub fn stride(&self) -> (r: usize)
        requires
            self.wf(),
        ensures
            self.spec_extents() == uniform_extents(r, B as nat),
    {
        self.stride
    }
}

impl<const B: usize> Shape<B> for DynamicUniformShape<B> {
    closed spec fn spec_extents(&self) -> Seq<usize> {
        uniform_extents(self.stride, B as nat)
    }

    closed spec fn wf(&self) -> bool {
        uniform_ok(self.stride, B as nat)
    }

    proof fn wf_facts(&self) {
    }

    fn extents(&self) -> (r: Vec<usize>) {
        crate::uniform::repeat_extent(self.stride, B)
    }

    fn capacity(&self) -> (r: usize) {
        crate::uniform::subdimension(self.stride, B)
    }

    fn position_to_index(&self, block: &Vec<i32>) -> (r: Option<usize>) {
        crate::uniform::position_to_index(self.stride, block)
    }

    fn index_to_position(&self, index: usize) -> (r: Option<Vec<i32>>) {
        crate::uniform::index_to_position(self.stride, B, index)
    }

    fn world_to_chunk_block(&self, world: &Vec<i32>, chunk_dims: usize) -> (r: WorldCoordinate) {
        let extents = self.extents();
        let (chunk, block) = resolve::world_to_chunk_block_resized(&extents, world, chunk_dims);
        WorldCoordinate { chunk, block }
    }

    fn chunk_block_to_world(&self, chunk: &Vec<i32>, block: &Vec<i32>) -> (r: Vec<i32>) {
        let extents = self.extents();
        resolve::chunk_block_to_world_resized(&extents, chunk, block)
    }
}

/// A runtime multiform shape: independent extents, one per axis.
#[derive(Debug, Clone, PartialEq, Eq, Hash)]
pub struct DynamicMultiformShape<const B: usize> {
    extents: Vec<usize>,
}

impl<const B: usize> DynamicMultiformShape<B> {
    /// A multiform shape with the given per-axis extents.
    pub fn new(extents: Vec<usize>) -> (r: Self)
        requires
            extents_ok(extents@),
            extents@.len() == B,
        ensures
            r.wf(),
            r.spec_extents() == extents@,
    {
        DynamicMultiformShape { extents }
    }
}

impl<const B: usize> Shape<B> for DynamicMultiformShape<B> {
    closed spec fn spec_extents(&self) -> Seq<usize> {
        self.extents@
    }

    closed spec fn wf(&self) -> bool {
        extents_ok(self.extents@) && self.extents@.len() == B
    }

    proof fn wf_facts(&self) {
    }

    fn extents(&self) -> (r: Vec<usize>) {
        self.extents.clone()
    }

    fn capacity(&self) -> (r: usize) {
        convert::capacity(&self.extents)
    }

    fn position_to_index(&self, block: &Vec<i32>) -> (r: Option<usize>) {
        convert::position_to_index(&self.extents, block)
    }

    fn index_to_position(&self, index: usize) -> (r: Option<Vec<i32>>) {
        convert::index_to_position(&self.extents, index)
    }

    fn world_to_chunk_block(&self, world: &Vec<i32>, chunk_dims: usize) -> (r: WorldCoordinate) {
        let (chunk, block) = resolve::world_to_chunk_block_resized(&self.extents, world, chunk_dims);
        WorldCoordinate { chunk, block }
    }

    fn chunk_block_to_world(&self, chunk: &Vec<i32>, block: &Vec<i32>) -> (r: Vec<i32>) {
        resolve::chunk_block_to_world_resized(&self.extents, chunk, block)
    }
}

/// A runtime shape of either kind: uniform or multiform.
#[derive(Debug, Clone, PartialEq, Eq, Hash)]
pub enum DynamicShape<const B: usize> {
    Uniform(DynamicUniformShape<B>),
    Multiform(DynamicMultiformShape<B>),
}

impl<const B: usize> Shape<B> for DynamicShape<B> {
    closed spec fn spec_extents(&self) -> Seq<usize> {
        match self {
            DynamicShape::Uniform(shape) => shape.spec_extents(),
            DynamicShape::Multiform(shape) => shape.spec_extents(),
        }
    }

    closed spec fn wf(&self) -> bool {
        match self {
            DynamicShape::Uniform(shape) => shape.wf(),
            DynamicShape::Multiform(shape) => shape.wf(),
        }
    }

    proof fn wf_facts(&self) {
        match self {
            DynamicShape::Uniform(shape) => shape.wf_facts(),
            DynamicShape::Multiform(shape) => shape.wf_facts(),
        }
    }

    fn extents(&self) -> (r: Vec<usize>) {
        match self {
            DynamicShape::Uniform(shape) => shape.extents(),
            DynamicShape::Multiform(shape) => shape.extents(),
        }
    }

    fn capacity(&self) -> (r: usize) {
        match self {
            DynamicShape::Uniform(shape) => shape.capacity(),
            DynamicShape::Multiform(shape) => shape.capacity(),
        }
    }

    fn position_to_index(&self, block: &Vec<i32>) -> (r: Option<usize>) {
        match self {
            DynamicShape::Uniform(shape) => shape.position_to_index(block),
            DynamicShape::Multiform(shape) => shape.position_to_index(block),
        }
    }

    fn index_to_position(&self, index: usize) -> (r: Option<Vec<i32>>) {
        match self {
            DynamicShape::Uniform(shape) => shape.index_to_position(index),
            DynamicShape::Multiform(shape) => shape.index_to_position(index),
        }
    }

    fn world_to_chunk_block(&self, world: &Vec<i32>, chunk_dims: usize) -> (r: WorldCoordinate) {
        match self {
            DynamicShape::Uniform(shape) => shape.world_to_chunk_block(world, chunk_dims),
            DynamicShape::Multiform(shape) => shape.world_to_chunk_block(world, chunk_dims),
        }
    }

    fn chunk_block_to_world(&self, chunk: &Vec<i32>, block: &Vec<i32>) -> (r: Vec<i32>) {
        match self {
            DynamicShape::Uniform(shape) => shape.chunk_block_to_world(chunk, block),
            DynamicShape::Multiform(shape) => shape.chunk_block_to_world(chunk, block),
        }
    }
}

/// A chunk over a runtime multiform shape, holding one default item per
/// valid position at construction.
pub struct DynamicChunk<T, const B: usize> {
    data: Vec<T>,
    shape: DynamicMultiformShape<B>,
}

impl<T, const B: usize> DynamicChunk<T, B> {
    /// The chunk's shape.
    pub closed spec fn spec_shape(&self) -> DynamicMultiformShape<B> {
        self.shape
    }

    /// The stored items, in index order.
    pub closed spec fn spec_items(&self) -> Seq<T> {
        self.data@
    }

    /// The pairing's invariant: one item per valid position.
    pub open spec fn wf(&self) -> bool {
        &&& self.spec_shape().wf()
        &&& self.spec_items().len() == product_of(self.spec_shape().spec_extents())
    }

    /// A chunk over the given extents, filled with the item type's default.
    pub fn new(extents: Vec<usize>) -> (r: Self) where T: Default
        requires
            extents_ok(extents@),
            extents@.len() == B,
        ensures
            r.wf(),
            r.spec_shape().spec_extents() == extents@,
    {
        let shape = DynamicMultiformShape::new(extents);
        proof {
            shape.wf_facts();
        }
        let capacity = shape.capacity();
        let g = |index: usize| -> T { Default::default() };
        let data = <Vec<T> as FromFn>::from_fn(capacity, g);
        DynamicChunk { data, shape }
    }

    /// The item at `position`, or `None` when the position is out of the
    /// shape's range.
    pub fn get(&self, position: &Vec<i32>) -> (r: Option<&T>)
        requires
            self.wf(),
            position@.len() == B,
        ensures
            match r {
                Some(item) => crate::convert::valid_position(
                    self.spec_shape().spec_extents(),
                    position@,
                ) && *item == self.spec_items()[crate::convert::index_of(
                    self.spec_shape().spec_extents(),
                    position@,
                )],
                None => !crate::convert::valid_position(
                    self.spec_shape().spec_extents(),
                    position@,
                ),
            },
    {
        proof {
            self.shape.wf_facts();
        }
        match self.shape.position_to_index(position) {
            Some(index) => Some(&self.data[index]),
            None => None,
        }
    }

    /// Exclusive access to the item at `position`, or `None` when the
    /// position is out of the shape's range.
    pub fn get_mut(&mut self, position: &Vec<i32>) -> (r: Option<&mut T>)
        requires
            old(self).wf(),
            position@.len() == B,
        ensures
            r is Some ==> crate::convert::valid_position(
                old(self).spec_shape().spec_extents(),
                position@,
            ) && *r.unwrap() == old(self).spec_items()[crate::convert::index_of(
                old(self).spec_shape().spec_extents(),
                position@,
            )] && final(self).wf() && final(self).spec_shape() == old(self).spec_shape()
                && final(self).spec_items() == old(self).spec_items().update(
                crate::convert::index_of(old(self).spec_shape().spec_extents(), position@),
                *final(r.unwrap()),
            ),
            r is None ==> !crate::convert::valid_position(
                old(self).spec_shape().spec_extents(),
                position@,
            ) && *final(self) == *old(self),
    {
        proof {
            self.shape.wf_facts();
        }
        match self.shape.position_to_index(position) {
            Some(index) => Some(&mut self.data[index]),
            None => None,
        }
    }

    /// The item at `index`, or `None` when the index is out of range.
    pub fn index(&self, index: usize) -> (r: Option<&T>)
        requires
            self.wf(),
        ensures
            match r {
                Some(item) => index < self.spec_items().len() && *item == self.spec_items()[index as int],
                None => index >= self.spec_items().len(),
            },
    {
        if index < self.data.len() {
            Some(&self.data[index])
        } else {
            None
        }
    }
}

} // verus!
