//! The `Shape` abstraction: a hyperrectangle of `B` axes with the
//! position/index contract from [`crate::convert`] and the world/chunk/block
//! splitting from [`crate::resolve`].

use crate::convert;
use crate::convert::extents_ok;
use crate::convert::index_of;
use crate::convert::position_of;
use crate::convert::product_of;
use crate::convert::valid_position;
use crate::resolve;
use crate::resolve::blocks_of;
use crate::resolve::chunks_of;
use crate::resolve::zero_padded;
use crate::uniform::uniform_extents;
use crate::uniform::uniform_ok;
use vstd::prelude::*;

verus! {

/// A resolved world coordinate: the position of a chunk in chunk space and
/// the position of a block inside that chunk.
#[derive(Debug, Clone)]
pub struct WorldCoordinate {
    pub chunk: Vec<i32>,
    pub block: Vec<i32>,
}

impl PartialEq for WorldCoordinate {
    fn eq(&self, other: &Self) -> (r: bool) {
        coordinates_equal(&self.chunk, &other.chunk) && coordinates_equal(&self.block, &other.block)
    }
}

impl vstd::std_specs::cmp::PartialEqSpecImpl for WorldCoordinate {
    open spec fn obeys_eq_spec() -> bool {
        true
    }

    open spec fn eq_spec(&self, other: &Self) -> bool {
        self.chunk@ == other.chunk@ && self.block@ == other.block@
    }
}

impl Eq for WorldCoordinate {

}

/// Whether two coordinate vectors agree on every axis.
pub fn coordinates_equal(a: &Vec<i32>, b: &Vec<i32>) -> (r: bool)
    ensures
        r <==> a@ == b@,
{
    if a.len() != b.len() {
        proof {
            assert(a@.len() != b@.len());
        }
        return false;
    }
    let n = a.len();
    let mut i: usize = 0;
    while i < n
        invariant
            n == a@.len(),
            b@.len() == n,
            i <= n,
            forall|j: int| 0 <= j < i ==> #[trigger] a@[j] == b@[j],
        decreases n - i,
    {
        if a[i] != b[i] {
            return false;
        }
        i = i + 1;
    }
    proof {
        assert(a@ =~= b@);
    }
    true
}

/// A hyperrectangle of `B` axes.
///
/// Implementations publish their extents through `spec_extents` and carry a
/// well-formedness predicate `wf` that constructors establish; under it the
/// extents obey [`extents_ok`] and the conversion methods are total.
pub trait Shape<const B: usize>: Sized {
    /// The per-axis extents this shape stands for.
    spec fn spec_extents(&self) -> Seq<usize>;

    /// The shape's invariant: established by its constructor.
    spec fn wf(&self) -> bool;

    proof fn wf_facts(&self)
        requires
            self.wf(),
        ensures
            extents_ok(self.spec_extents()),
            self.spec_extents().len() == B,
    ;

    /// The extents, one entry per axis.
    fn extents(&self) -> (r: Vec<usize>)
        requires
            self.wf(),
        ensures
            r@ == self.spec_extents(),
    ;

    /// How many valid positions (and indices) the shape has.
    fn capacity(&self) -> (r: usize)
        requires
            self.wf(),
        ensures
            r == product_of(self.spec_extents()),
    ;

    /// Converts a block position to its flat index; `None` exactly when the
    /// position is out of range on some axis.
    fn position_to_index(&self, block: &Vec<i32>) -> (r: Option<usize>)
        requires
            self.wf(),
            block@.len() == B,
        ensures
            match r {
                Some(index) => valid_position(self.spec_extents(), block@) && index == index_of(
                    self.spec_extents(),
                    block@,
                ) && index < product_of(self.spec_extents()),
                None => !valid_position(self.spec_extents(), block@),
            },
    ;

    /// Converts a flat index back to a block position; `None` exactly when
    /// the index is at least the capacity.
    fn index_to_position(&self, index: usize) -> (r: Option<Vec<i32>>)
        requires
            self.wf(),
        ensures
            match r {
                Some(position) => index < product_of(self.spec_extents()) && position@
                    == position_of(self.spec_extents(), index as int) && valid_position(
                    self.spec_extents(),
                    position@,
                ) && index_of(self.spec_extents(), position@) == index,
                None => index >= product_of(self.spec_extents()),
            },
    ;

    /// Splits a world position into a chunk coordinate of `chunk_dims` axes
    /// and a block position inside this shape, by floor division: the block
    /// half is non-negative on every axis.
    fn world_to_chunk_block(&self, world: &Vec<i32>, chunk_dims: usize) -> (r: WorldCoordinate)
        requires
            self.wf(),
            world@.len() == B,
            chunk_dims <= B,
        ensures
            r.chunk@ == chunks_of(self.spec_extents(), world@).take(chunk_dims as int),
            r.block@ == blocks_of(self.spec_extents(), world@),
            forall|i: int|
                0 <= i < r.block@.len() ==> 0 <= #[trigger] r.block@[i] < self.spec_extents()[i],
            forall|i: int|
                0 <= i < chunk_dims ==> #[trigger] (r.chunk@[i] * self.spec_extents()[i]
                    + r.block@[i]) == world@[i],
    ;

    /// Recombines a chunk coordinate (of possibly fewer axes, the rest
    /// counting as zero) and a block position into a world position.
    fn chunk_block_to_world(&self, chunk: &Vec<i32>, block: &Vec<i32>) -> (r: Vec<i32>)
        requires
            self.wf(),
            block@.len() == B,
            chunk@.len() <= B,
            forall|i: int|
                0 <= i < chunk@.len() ==> i32::MIN <= #[trigger] chunk@[i]
                    * self.spec_extents()[i] + block@[i] <= i32::MAX,
        ensures
            r@ == resolve::worlds_of(
                self.spec_extents(),
                zero_padded(chunk@, B as nat),
                block@,
            ),
            forall|i: int|
                0 <= i < r@.len() ==> #[trigger] r@[i] == zero_padded(chunk@, B as nat)[i]
                    * self.spec_extents()[i] + block@[i],
    ;
}

/// A shape whose axes all share one stride.
pub trait UniformShape<const B: usize>: Shape<B> {
    /// The shared per-axis stride.
    fn stride(&self) -> (r: usize)
        requires
            self.wf(),
        ensures
            self.spec_extents() == uniform_extents(r, B as nat),
    ;
}

/// A runtime-sized uniform shape: one stride broadcast over `B` axes.
#[derive(Debug, Clone, Copy, PartialEq, Eq, Hash)]
pub struct Uniform<const B: usize> {
    stride: usize,
}

impl<const B: usize> Uniform<B> {
    /// A uniform shape with the given stride.
    pub fn new(stride: usize) -> (r: Self)
        requires
            uniform_ok(stride, B as nat),
        ensures
            r.wf(),
            r.spec_extents() == uniform_extents(stride, B as nat),
    {
        Uniform { stride }
    }
}

impl<const B: usize> Shape<B> for Uniform<B> {
    closed spec fn spec_extents(&self) -> Seq<usize> {
        uniform_extents(self.stride, B as nat)
    }

    closed spec fn wf(&self) -> bool {
        uniform_ok(self.stride, B as nat)
    }

    proof fn wf_facts(&self) {
    }

    fn extents(&self) -> (r: Vec<usize>) {
        crate::uniform::repeat_extent(self.stride, B)
    }

    fn capacity(&self) -> (r: usize) {
        crate::uniform::subdimension(self.stride, B)
    }

    fn position_to_index(&self, block: &Vec<i32>) -> (r: Option<usize>) {
        crate::uniform::position_to_index(self.stride, block)
    }

    fn index_to_position(&self, index: usize) -> (r: Option<Vec<i32>>) {
        crate::uniform::index_to_position(self.stride, B, index)
    }

    fn world_to_chunk_block(&self, world: &Vec<i32>, chunk_dims: usize) -> (r: WorldCoordinate) {
        let extents = self.extents();
        let (chunk, block) = resolve::world_to_chunk_block_resized(&extents, world, chunk_dims);
        WorldCoordinate { chunk, block }
    }

    fn chunk_block_to_world(&self, chunk: &Vec<i32>, block: &Vec<i32>) -> (r: Vec<i32>) {
        let extents = self.extents();
        resolve::chunk_block_to_world_resized(&extents, chunk, block)
    }
}

impl<const B: usize> UniformShape<B> for Uniform<B> {
    fn stride(&self) -> (r: usize) {
        self.stride
    }
}

/// A runtime-sized multiform shape: independent extents, one per axis.
#[derive(Debug, Clone, PartialEq, Eq, Hash)]
pub struct Multiform<const B: usize> {
    extents: Vec<usize>,
}

impl<const B: usize> Multiform<B> {
    /// A multiform shape with the given per-axis extents.
    pub fn new(extents: Vec<usize>) -> (r: Self)
        requires
            extents_ok(extents@),
            extents@.len() == B,
        ensures
            r.wf(),
            r.spec_extents() == extents@,
    {
        Multiform { extents }
    }
}

impl<const B: usize> Shape<B> for Multiform<B> {
    closed spec fn spec_extents(&self) -> Seq<usize> {
        self.extents@
    }

    closed spec fn wf(&self) -> bool {
        extents_ok(self.extents@) && self.extents@.len() == B
    }

    proof fn wf_facts(&self) {
    }

    fn extents(&self) -> (r: Vec<usize>) {
        self.extents.clone()
    }

    fn capacity(&self) -> (r: usize) {
        convert::capacity(&self.extents)
    }

    fn position_to_index(&self, block: &Vec<i32>) -> (r: Option<usize>) {
        convert::position_to_index(&self.extents, block)
    }

    fn index_to_position(&self, index: usize) -> (r: Option<Vec<i32>>) {
        convert::index_to_position(&self.extents, index)
    }

    fn world_to_chunk_block(&self, world: &Vec<i32>, chunk_dims: usize) -> (r: WorldCoordinate) {
        let (chunk, block) = resolve::world_to_chunk_block_resized(&self.extents, world, chunk_dims);
        WorldCoordinate { chunk, block }
    }

    fn chunk_block_to_world(&self, chunk: &Vec<i32>, block: &Vec<i32>) -> (r: Vec<i32>) {
        resolve::chunk_block_to_world_resized(&self.extents, chunk, block)
    }
}

/// A shape chosen at run time: uniform or multiform.
#[derive(Debug, Clone, PartialEq, Eq, Hash)]
pub enum Dynamic<const B: usize> {
    Uniform(Uniform<B>),
    Multiform(Multiform<B>),
}

impl<const B: usize> Shape<B> for Dynamic<B> {
    closed spec fn spec_extents(&self) -> Seq<usize> {
        match self {
            Dynamic::Uniform(shape) => shape.spec_extents(),
            Dynamic::Multiform(shape) => shape.spec_extents(),
        }
    }

    closed spec fn wf(&self) -> bool {
        match self {
            Dynamic::Uniform(shape) => shape.wf(),
            Dynamic::Multiform(shape) => shape.wf(),
        }
    }

    proof fn wf_facts(&self) {
        match self {
            Dynamic::Uniform(shape) => shape.wf_facts(),
            Dynamic::Multiform(shape) => shape.wf_facts(),
        }
    }

    fn extents(&self) -> (r: Vec<usize>) {
        match self {
            Dynamic::Uniform(shape) => shape.extents(),
            Dynamic::Multiform(shape) => shape.extents(),
        }
    }

    fn capacity(&self) -> (r: usize) {
        match self {
            Dynamic::Uniform(shape) => shape.capacity(),
            Dynamic::Multiform(shape) => shape.capacity(),
        }
    }

    fn position_to_index(&self, block: &Vec<i32>) -> (r: Option<usize>) {
        match self {
            Dynamic::Uniform(shape) => shape.position_to_index(block),
            Dynamic::Multiform(shape) => shape.position_to_index(block),
        }
    }

    fn index_to_position(&self, index: usize) -> (r: Option<Vec<i32>>) {
        match self {
            Dynamic::Uniform(shape) => shape.index_to_position(index),
            Dynamic::Multiform(shape) => shape.index_to_position(index),
        }
    }

    fn world_to_chunk_block(&self, world: &Vec<i32>, chunk_dims: usize) -> (r: WorldCoordinate) {
        match self {
            Dynamic::Uniform(shape) => shape.world_to_chunk_block(world, chunk_dims),
            Dynamic::Multiform(shape) => shape.world_to_chunk_block(world, chunk_dims),
        }
    }

    fn chunk_block_to_world(&self, chunk: &Vec<i32>, block: &Vec<i32>) -> (r: Vec<i32>) {
        match self {
            Dynamic::Uniform(shape) => shape.chunk_block_to_world(chunk, block),
            Dynamic::Multiform(shape) => shape.chunk_block_to_world(chunk, block),
        }
    }
}

} // verus!
