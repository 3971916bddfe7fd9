//! Resolving world-space coordinates into (chunk, block) pairs and back.
//!
//! Every axis is split by Euclidean (floor) division against the chunk
//! extents: the block half is the non-negative remainder, the chunk half the
//! floored quotient, so `chunk * extent + block == world` holds exactly even
//! for negative world coordinates.

use crate::convert::extents_ok;
use vstd::arithmetic::div_mod::lemma_fundamental_div_mod;
use vstd::prelude::*;

verus! {

/// The block half of each world coordinate: the remainder under its axis's
/// extent, always in `[0, extent)`.
pub open spec fn blocks_of(extents: Seq<usize>, world: Seq<i32>) -> Seq<i32> {
    Seq::new(world.len(), |i: int| (world[i] as int % (extents[i] as int)) as i32)
}

/// The chunk half of each world coordinate: the floored quotient under its
/// axis's extent.
pub open spec fn chunks_of(extents: Seq<usize>, world: Seq<i32>) -> Seq<i32> {
    Seq::new(world.len(), |i: int| (world[i] as int / (extents[i] as int)) as i32)
}

/// A (chunk, block) pair recombined into world coordinates.
pub open spec fn worlds_of(extents: Seq<usize>, chunk: Seq<i32>, block: Seq<i32>) -> Seq<i32> {
    Seq::new(chunk.len(), |i: int| (chunk[i] * extents[i] + block[i]) as i32)
}

/// The floored quotient of a coordinate never grows in magnitude, so it
/// stays inside `i32`.
proof fn lemma_quotient_in_range(w: int, e: int)
    requires
        i32::MIN <= w <= i32::MAX,
        1 <= e,
    ensures
        i32::MIN <= w / e <= i32::MAX,
        w >= 0 ==> 0 <= w / e <= w,
        w < 0 ==> w <= w / e <= 0,
{
    lemma_fundamental_div_mod(w, e);
    let q = w / e;
    let r = w % e;
    if w >= 0 {
        assert(0 <= q <= w) by (nonlinear_arith)
            requires
                w == e * q + r,
                0 <= r < e,
                1 <= e,
                w >= 0,
        ;
    } else {
        assert(w <= q <= 0) by (nonlinear_arith)
            requires
                w == e * q + r,
                0 <= r < e,
                1 <= e,
                w < 0,
        ;
    }
}

/// Law: recombining the two halves of `world_to_chunk_block` restores the
/// world coordinate exactly, on every axis and for negative coordinates too.
pub proof fn lemma_world_chunk_block_inverse(extents: Seq<usize>, world: Seq<i32>)
    requires
        extents_ok(extents),
        world.len() == extents.len(),
    ensures
        worlds_of(extents, chunks_of(extents, world), blocks_of(extents, world)) == world,
        forall|i: int|
            0 <= i < world.len() ==> #[trigger] (chunks_of(extents, world)[i] * extents[i]
                + blocks_of(extents, world)[i]) == world[i],
{
    let chunk = chunks_of(extents, world);
    let block = blocks_of(extents, world);
    assert forall|i: int| 0 <= i < world.len() implies #[trigger] worlds_of(extents, chunk, block)[i]
        == world[i] && chunk[i] * extents[i] + block[i] == world[i] by {
        let w = world[i] as int;
        let e = extents[i] as int;
        lemma_fundamental_div_mod(w, e);
        lemma_quotient_in_range(w, e);
        assert(chunk[i] == w / e);
        assert(block[i] == w % e);
        assert(chunk[i] * e + block[i] == w) by (nonlinear_arith)
            requires
                chunk[i] == w / e,
                block[i] == w % e,
                w == e * (w / e) + w % e,
        ;
    }
    assert(worlds_of(extents, chunk, block) =~= world);
}

/// Law: the block half of a resolved world coordinate is never negative and
/// always below its axis's extent, whatever the sign of the input.
pub proof fn lemma_block_in_range(extents: Seq<usize>, world: Seq<i32>)
    requires
        extents_ok(extents),
        world.len() == extents.len(),
    ensures
        forall|i: int|
            0 <= i < world.len() ==> 0 <= #[trigger] blocks_of(extents, world)[i] < extents[i],
{
    assert forall|i: int| 0 <= i < world.len() implies 0 <= #[trigger] blocks_of(extents, world)[i]
        < extents[i] by {
        let w = world[i] as int;
        let e = extents[i] as int;
        assert(0 <= w % e < e);
    }
}

/// Normalizes a possibly end-relative (negative) position into `[0, extent)`
/// on every axis, by modulo-with-extent arithmetic.
pub fn from_end_relative(extents: &Vec<usize>, position: &Vec<i32>) -> (r: Vec<i32>)
    requires
        extents_ok(extents@),
        position@.len() == extents@.len(),
    ensures
        r@ == blocks_of(extents@, position@),
        forall|i: int| 0 <= i < r@.len() ==> 0 <= #[trigger] r@[i] < extents@[i],
{
    let n = position.len();
    let mut out: Vec<i32> = Vec::new();
    let mut i: usize = 0;
    while i < n
        invariant
            extents_ok(extents@),
            position@.len() == extents@.len(),
            n == position@.len(),
            i <= n,
            out@.len() == i,
            forall|j: int|
                0 <= j < i ==> #[trigger] out@[j] == position@[j] as int % (extents@[j] as int),
        decreases n - i,
    {
        let w: i64 = position[i] as i64;
        let e: i64 = extents[i] as i64;
        let b: i64 = w.checked_rem_euclid(e).unwrap();
        out.push(b as i32);
        i = i + 1;
    }
    proof {
        assert(out@ =~= blocks_of(extents@, position@));
        lemma_block_in_range(extents@, position@);
    }
    out
}

/// The block half of a world position: each coordinate reduced modulo its
/// axis's extent, so the result is non-negative even for negative input.
pub fn world_to_block(extents: &Vec<usize>, world: &Vec<i32>) -> (r: Vec<i32>)
    requires
        extents_ok(extents@),
        world@.len() == extents@.len(),
    ensures
        r@ == blocks_of(extents@, world@),
        forall|i: int| 0 <= i < r@.len() ==> 0 <= #[trigger] r@[i] < extents@[i],
{
    from_end_relative(extents, world)
}

/// The chunk half of a world position: each coordinate divided by its
/// axis's extent, rounding toward negative infinity.
pub fn world_to_chunk(extents: &Vec<usize>, world: &Vec<i32>) -> (r: Vec<i32>)
    requires
        extents_ok(extents@),
        world@.len() == extents@.len(),
    ensures
        r@ == chunks_of(extents@, world@),
{
    let n = world.len();
    let mut out: Vec<i32> = Vec::new();
    let mut i: usize = 0;
    while i < n
        invariant
            extents_ok(extents@),
            world@.len() == extents@.len(),
            n == world@.len(),
            i <= n,
            out@.len() == i,
            forall|j: int|
                0 <= j < i ==> #[trigger] out@[j] == world@[j] as int / (extents@[j] as int),
        decreases n - i,
    {
        let w: i64 = world[i] as i64;
        let e: i64 = extents[i] as i64;
        proof {
            lemma_quotient_in_range(w as int, e as int);
        }
        let c: i64 = w.checked_div_euclid(e).unwrap();
        out.push(c as i32);
        i = i + 1;
    }
    proof {
        assert(out@ =~= chunks_of(extents@, world@));
    }
    out
}

/// Splits a world position into its chunk and block halves in one step.
///
/// On every axis `chunk * extent + block == world`, and the block half is
/// always inside `[0, extent)`.
pub fn world_to_chunk_block(extents: &Vec<usize>, world: &Vec<i32>) -> (r: (Vec<i32>, Vec<i32>))
    requires
        extents_ok(extents@),
        world@.len() == extents@.len(),
    ensures
        r.0@ == chunks_of(extents@, world@),
        r.1@ == blocks_of(extents@, world@),
        forall|i: int| 0 <= i < r.1@.len() ==> 0 <= #[trigger] r.1@[i] < extents@[i],
        forall|i: int|
            0 <= i < world@.len() ==> #[trigger] (r.0@[i] * extents@[i] + r.1@[i]) == world@[i],
{
    let chunk = world_to_chunk(extents, world);
    let block = world_to_block(extents, world);
    proof {
        lemma_world_chunk_block_inverse(extents@, world@);
    }
    (chunk, block)
}

/// Scales a chunk position back up to the world origin of that chunk.
pub fn chunk_to_world(extents: &Vec<usize>, chunk: &Vec<i32>) -> (r: Vec<i32>)
    requires
        extents_ok(extents@),
        chunk@.len() == extents@.len(),
        forall|i: int|
            0 <= i < chunk@.len() ==> i32::MIN <= #[trigger] chunk@[i] * extents@[i] <= i32::MAX,
    ensures
        r@.len() == chunk@.len(),
        forall|i: int| 0 <= i < r@.len() ==> #[trigger] r@[i] == chunk@[i] * extents@[i],
{
    let n = chunk.len();
    let mut out: Vec<i32> = Vec::new();
    let mut i: usize = 0;
    while i < n
        invariant
            extents_ok(extents@),
            chunk@.len() == extents@.len(),
            forall|j: int|
                0 <= j < chunk@.len() ==> i32::MIN <= #[trigger] chunk@[j] * extents@[j]
                    <= i32::MAX,
            n == chunk@.len(),
            i <= n,
            out@.len() == i,
            forall|j: int| 0 <= j < i ==> #[trigger] out@[j] == chunk@[j] * extents@[j],
        decreases n - i,
    {
        let c: i64 = chunk[i] as i64;
        let e: i64 = extents[i] as i64;
        out.push((c * e) as i32);
        i = i + 1;
    }
    out
}

/// Recombines a (chunk, block) pair into the world position it came from.
pub fn chunk_block_to_world(extents: &Vec<usize>, chunk: &Vec<i32>, block: &Vec<i32>) -> (r: Vec<
    i32,
>)
    requires
        extents_ok(extents@),
        chunk@.len() == extents@.len(),
        block@.len() == extents@.len(),
        forall|i: int|
            0 <= i < chunk@.len() ==> i32::MIN <= #[trigger] chunk@[i] * extents@[i] + block@[i]
                <= i32::MAX,
    ensures
        r@ == worlds_of(extents@, chunk@, block@),
        forall|i: int|
            0 <= i < r@.len() ==> #[trigger] r@[i] == chunk@[i] * extents@[i] + block@[i],
{
    let n = chunk.len();
    let mut out: Vec<i32> = Vec::new();
    let mut i: usize = 0;
    while i < n
        invariant
            extents_ok(extents@),
            chunk@.len() == extents@.len(),
            block@.len() == extents@.len(),
            forall|j: int|
                0 <= j < chunk@.len() ==> i32::MIN <= #[trigger] chunk@[j] * extents@[j]
                    + block@[j] <= i32::MAX,
            n == chunk@.len(),
            i <= n,
            out@.len() == i,
            forall|j: int| 0 <= j < i ==> #[trigger] out@[j] == chunk@[j] * extents@[j] + block@[j],
        decreases n - i,
    {
        let c: i64 = chunk[i] as i64;
        let e: i64 = extents[i] as i64;
        let b: i64 = block[i] as i64;
        out.push((c * e + b) as i32);
        i = i + 1;
    }
    proof {
        assert(out@ =~= worlds_of(extents@, chunk@, block@));
    }
    out
}

/// A chunk position widened to `dims` axes by zero-filling the missing ones.
pub open spec fn zero_padded(chunk: Seq<i32>, dims: nat) -> Seq<i32> {
    Seq::new(dims, |i: int| if i < chunk.len() { chunk[i] } else { 0i32 })
}

/// Splits a world position into chunk and block halves, keeping only the
/// first `chunk_dims` axes of the chunk half.
pub fn world_to_chunk_block_resized(extents: &Vec<usize>, world: &Vec<i32>, chunk_dims: usize) -> (r:
    (Vec<i32>, Vec<i32>))
    requires
        extents_ok(extents@),
        world@.len() == extents@.len(),
        chunk_dims <= world@.len(),
    ensures
        r.0@ == chunks_of(extents@, world@).take(chunk_dims as int),
        r.1@ == blocks_of(extents@, world@),
        forall|i: int| 0 <= i < r.1@.len() ==> 0 <= #[trigger] r.1@[i] < extents@[i],
        forall|i: int|
            0 <= i < chunk_dims ==> #[trigger] (r.0@[i] * extents@[i] + r.1@[i]) == world@[i],
{
    let (mut chunk, block) = world_to_chunk_block(extents, world);
    chunk.truncate(chunk_dims);
    proof {
        assert(chunk@ =~= chunks_of(extents@, world@).take(chunk_dims as int));
    }
    (chunk, block)
}

/// Recombines a chunk half of possibly fewer axes with a full block half:
/// missing chunk axes count as zero.
pub fn chunk_block_to_world_resized(extents: &Vec<usize>, chunk: &Vec<i32>, block: &Vec<i32>) -> (r:
    Vec<i32>)
    requires
        extents_ok(extents@),
        block@.len() == extents@.len(),
        chunk@.len() <= extents@.len(),
        forall|i: int|
            0 <= i < chunk@.len() ==> i32::MIN <= #[trigger] chunk@[i] * extents@[i] + block@[i]
                <= i32::MAX,
    ensures
        r@ == worlds_of(extents@, zero_padded(chunk@, extents@.len()), block@),
        forall|i: int|
            0 <= i < r@.len() ==> #[trigger] r@[i] == zero_padded(chunk@, extents@.len())[i]
                * extents@[i] + block@[i],
{
    let n = block.len();
    let c_len = chunk.len();
    let mut out: Vec<i32> = Vec::new();
    let mut i: usize = 0;
    while i < n
        invariant
            extents_ok(extents@),
            block@.len() == extents@.len(),
            chunk@.len() <= extents@.len(),
            forall|j: int|
                0 <= j < chunk@.len() ==> i32::MIN <= #[trigger] chunk@[j] * extents@[j]
                    + block@[j] <= i32::MAX,
            n == extents@.len(),
            c_len == chunk@.len(),
            i <= n,
            out@.len() == i,
            forall|j: int|
                0 <= j < i ==> #[trigger] out@[j] == zero_padded(chunk@, extents@.len())[j]
                    * extents@[j] + block@[j],
        decreases n - i,
    {
        let c: i64 = if i < c_len {
            chunk[i] as i64
        } else {
            0
        };
        let e: i64 = extents[i] as i64;
        let b: i64 = block[i] as i64;
        out.push((c * e + b) as i32);
        i = i + 1;
    }
    proof {
        assert(out@ =~= worlds_of(extents@, zero_padded(chunk@, extents@.len()), block@));
    }
    out
}

} // verus!
