//! Position/index conversion specialised to uniform shapes, where every axis
//! shares one stride. Results agree with the general multiform conversion on
//! the broadcast extents by construction.

use crate::convert;
use crate::convert::extents_ok;
use crate::convert::index_of;
use crate::convert::position_of;
use crate::convert::product_of;
use crate::convert::valid_position;
use crate::resolve;
use crate::shape::Shape;
use crate::shape::WorldCoordinate;
use vstd::prelude::*;

verus! {

/// A hypercube shape carried entirely by the type: stride `S` over `D`
/// axes.
#[derive(Debug, Default, Clone, Copy, PartialEq, Eq, Hash)]
pub struct UniformShape<const S: usize, const D: usize>;

impl<const S: usize, const D: usize> UniformShape<S, D> {
    /// The one value of this shape.
    pub fn new() -> (r: Self)
        ensures
            r == (UniformShape::<S, D> {  }),
    {
        UniformShape
    }
}

impl<const S: usize, const D: usize> Shape<D> for UniformShape<S, D> {
    closed spec fn spec_extents(&self) -> Seq<usize> {
        uniform_extents(S, D as nat)
    }

    closed spec fn wf(&self) -> bool {
        uniform_ok(S, D as nat)
    }

    proof fn wf_facts(&self) {
    }

    fn extents(&self) -> (r: Vec<usize>) {
        repeat_extent(S, D)
    }

    fn capacity(&self) -> (r: usize) {
        subdimension(S, D)
    }

    fn position_to_index(&self, block: &Vec<i32>) -> (r: Option<usize>) {
        position_to_index(S, block)
    }

    fn index_to_position(&self, index: usize) -> (r: Option<Vec<i32>>) {
        index_to_position(S, D, index)
    }

    fn world_to_chunk_block(&self, world: &Vec<i32>, chunk_dims: usize) -> (r: WorldCoordinate) {
        let extents = repeat_extent(S, D);
        let (chunk, block) = resolve::world_to_chunk_block_resized(&extents, world, chunk_dims);
        WorldCoordinate { chunk, block }
    }

    fn chunk_block_to_world(&self, chunk: &Vec<i32>, block: &Vec<i32>) -> (r: Vec<i32>) {
        let extents = repeat_extent(S, D);
        resolve::chunk_block_to_world_resized(&extents, chunk, block)
    }
}

impl<const S: usize, const D: usize> crate::shape::UniformShape<D> for UniformShape<S, D> {
    fn stride(&self) -> (r: usize) {
        S
    }
}

/// The stride broadcast over `dims` axes.
pub open spec fn uniform_extents(stride: usize, dims: nat) -> Seq<usize> {
    Seq::new(dims, |i: int| stride)
}

/// What `extents_ok` comes to for a uniform shape.
pub open spec fn uniform_ok(stride: usize, dims: nat) -> bool {
    extents_ok(uniform_extents(stride, dims))
}

/// The stride repeated once per axis, as a vector.
pub fn repeat_extent(stride: usize, dims: usize) -> (r: Vec<usize>)
    ensures
        r@ == uniform_extents(stride, dims as nat),
{
    let mut out: Vec<usize> = Vec::new();
    let mut i: usize = 0;
    while i < dims
        invariant
            i <= dims,
            out@.len() == i,
            forall|j: int| 0 <= j < i ==> #[trigger] out@[j] == stride,
        decreases dims - i,
    {
        out.push(stride);
        i = i + 1;
    }
    proof {
        assert(out@ =~= uniform_extents(stride, dims as nat));
    }
    out
}

/// The number of positions spanned by `limit` axes of one stride: the
/// stride raised to that power.
pub fn subdimension(stride: usize, limit: usize) -> (r: usize)
    requires
        uniform_ok(stride, limit as nat),
    ensures
        r == product_of(uniform_extents(stride, limit as nat)),
{
    let extents = repeat_extent(stride, limit);
    convert::capacity(&extents)
}

/// Converts a position to its flat index under one shared stride; agrees
/// with the multiform conversion on the broadcast extents.
pub fn position_to_index(stride: usize, position: &Vec<i32>) -> (r: Option<usize>)
    requires
        uniform_ok(stride, position@.len()),
    ensures
        match r {
            Some(index) => valid_position(uniform_extents(stride, position@.len()), position@)
                && index == index_of(uniform_extents(stride, position@.len()), position@) && index
                < product_of(uniform_extents(stride, position@.len())),
            None => !valid_position(uniform_extents(stride, position@.len()), position@),
        },
{
    let extents = repeat_extent(stride, position.len());
    convert::position_to_index(&extents, position)
}

/// Converts a flat index back to a position under one shared stride; agrees
/// with the multiform conversion on the broadcast extents.
pub fn index_to_position(stride: usize, dims: usize, index: usize) -> (r: Option<Vec<i32>>)
    requires
        uniform_ok(stride, dims as nat),
    ensures
        match r {
            Some(position) => index < product_of(uniform_extents(stride, dims as nat)) && position@
                == position_of(uniform_extents(stride, dims as nat), index as int)
                && valid_position(uniform_extents(stride, dims as nat), position@) && index_of(
                uniform_extents(stride, dims as nat),
                position@,
            ) == index,
            None => index >= product_of(uniform_extents(stride, dims as nat)),
        },
{
    let extents = repeat_extent(stride, dims);
    convert::index_to_position(&extents, index)
}

} // verus!
