//! A sparse world: an ordered map from chunk coordinates to chunk storages,
//! all sharing one shape, with block access across the chunk boundary.

use crate::buffer::Buffer;
use crate::convert::index_of;
use crate::convert::product_of;
use crate::convert::valid_position;
use crate::position_map;
use crate::position_map::key_views;
use crate::position_map::ordered_keys;
use crate::position_map::PositionMap;
use crate::resolve::blocks_of;
use crate::resolve::chunks_of;
use crate::resolve::zero_padded;
use crate::resolve::worlds_of;
use crate::shape::Shape;
use crate::shape::WorldCoordinate;
use crate::storage::ContiguousMemory;
use crate::storage::ContiguousMemoryMut;
use crate::storage::FromFn;
use crate::storage::Storage;
use vstd::prelude::*;

verus! {

/// A `W`-dimensional space of chunks.
///
/// Chunks live at `C`-dimensional chunk coordinates and share one `B`-axis
/// shape; their storages are the map's values. World coordinates resolve to
/// (chunk, block) pairs by floor division against the shared shape.
pub struct Multiform<T, S, const W: usize, const C: usize, const B: usize> {
    inner: PositionMap<T, C>,
    shape: S,
}

impl<T: Storage, S: Shape<B>, const W: usize, const C: usize, const B: usize> Multiform<
    T,
    S,
    W,
    C,
    B,
> {
    /// The shape every chunk of this world shares.
    pub closed spec fn spec_shape(&self) -> S {
        self.shape
    }

    /// The stored chunk coordinates, in iteration order.
    pub closed spec fn spec_positions(&self) -> Seq<Seq<i32>> {
        self.inner.spec_keys()
    }

    /// The stored chunk storages, aligned with `spec_positions`.
    pub closed spec fn spec_chunks(&self) -> Seq<T> {
        self.inner.spec_values()
    }

    /// The world as a map from chunk coordinate to chunk storage.
    pub closed spec fn spec_map(&self) -> Map<Seq<i32>, T> {
        self.inner@
    }

    /// The world's invariant: a well-formed shape of `B == W` axes, chunk
    /// coordinates of `C <= W` axes in strict reverse-lexicographic order,
    /// and every stored chunk filled to the shape's capacity.
    pub closed spec fn wf(&self) -> bool {
        &&& self.inner.wf()
        &&& self.shape.wf()
        &&& W == B
        &&& C <= B
        &&& forall|i: int|
            0 <= i < self.inner.spec_values().len()
                ==> (#[trigger] self.inner.spec_values()[i]).contents().len() == product_of(
                self.shape.spec_extents(),
            )
    }

    /// What the invariant guarantees of the parts a caller sees.
    pub proof fn lemma_wf(&self)
        requires
            self.wf(),
        ensures
            self.spec_shape().wf(),
            crate::convert::extents_ok(self.spec_shape().spec_extents()),
            self.spec_shape().spec_extents().len() == B,
            W == B,
            C <= B,
            ordered_keys(self.spec_positions()),
            self.spec_positions().len() == self.spec_chunks().len(),
            forall|i: int|
                0 <= i < self.spec_positions().len() ==> (#[trigger] self.spec_positions()[i]).len()
                    == C,
            forall|i: int|
                0 <= i < self.spec_chunks().len() ==> (#[trigger] self.spec_chunks()[i]).contents().len()
                    == product_of(self.spec_shape().spec_extents()),
            forall|k: Seq<i32>|
                self.spec_map().dom().contains(k) <==> position_map::has_key(
                    self.spec_positions(),
                    k,
                ),
            forall|i: int|
                0 <= i < self.spec_positions().len() ==> self.spec_map().dom().contains(
                    #[trigger] self.spec_positions()[i],
                ) && self.spec_map()[self.spec_positions()[i]] == self.spec_chunks()[i],
            forall|k: Seq<i32>| #[trigger]
                self.spec_map().dom().contains(k) ==> self.spec_map()[k].contents().len()
                    == product_of(self.spec_shape().spec_extents()),
    {
        self.inner.lemma_wf();
        self.shape.wf_facts();
        assert forall|k: Seq<i32>| #[trigger] self.spec_map().dom().contains(k) implies
            self.spec_map()[k].contents().len() == product_of(self.spec_shape().spec_extents()) by {
            assert(self.spec_map()[k] == self.inner.spec_values()[position_map::key_index(
                self.inner.spec_keys(),
                k,
            )]);
        }
    }

    /// A world of no chunks, all of which will share `shape`.
    pub fn new(shape: S) -> (r: Self)
        requires
            shape.wf(),
            W == B,
            C <= B,
        ensures
            r.wf(),
            r.spec_shape() == shape,
            r.spec_positions() == Seq::<Seq<i32>>::empty(),
            r.spec_map() == Map::<Seq<i32>, T>::empty(),
    {
        Multiform { inner: PositionMap::new(), shape }
    }

    /// The shared chunk shape.
    pub fn shape(&self) -> (r: &S)
        ensures
            *r == self.spec_shape(),
    {
        &self.shape
    }

    /// How many chunks the world holds.
    pub fn len(&self) -> (r: usize)
        requires
            self.wf(),
        ensures
            r == self.spec_positions().len(),
    {
        self.inner.len()
    }

    /// The held chunk coordinates, in iteration order: reverse-lexicographic,
    /// last axis first.
    pub fn positions(&self) -> (r: &Vec<Vec<i32>>)
        requires
            self.wf(),
        ensures
            key_views(r@) == self.spec_positions(),
    {
        self.inner.positions()
    }

    /// Chunk coordinates and chunk storages side by side, index by index, in
    /// iteration order.
    pub fn iter(&self) -> (r: (&Vec<Vec<i32>>, &Vec<T>))
        requires
            self.wf(),
        ensures
            key_views(r.0@) == self.spec_positions(),
            r.1@ == self.spec_chunks(),
            r.0@.len() == r.1@.len(),
    {
        self.inner.iter()
    }

    /// The chunk storages alone, in iteration order.
    pub fn chunks(&self) -> (r: &Vec<T>)
        requires
            self.wf(),
        ensures
            r@ == self.spec_chunks(),
    {
        self.inner.values()
    }

    /// The chunk storage at a chunk coordinate, or `None` where no chunk has
    /// been inserted: an ordinary condition in a sparse world.
    pub fn chunk(&self, position: &Vec<i32>) -> (r: Option<&T>)
        requires
            self.wf(),
            position@.len() == C,
        ensures
            match r {
                Some(storage) => self.spec_map().dom().contains(position@) && *storage
                    == self.spec_map()[position@],
                None => !self.spec_map().dom().contains(position@),
            },
    {
        self.inner.get(position)
    }

    /// Exclusive access to the chunk storage at a chunk coordinate.
    pub fn chunk_mut(&mut self, position: &Vec<i32>) -> (r: Option<&mut T>)
        requires
            old(self).wf(),
            position@.len() == C,
        ensures
            r is Some ==> old(self).spec_map().dom().contains(position@) && *r.unwrap() == old(
                self,
            ).spec_map()[position@] && final(self).spec_map() == old(self).spec_map().insert(
                position@,
                *final(r.unwrap()),
            ) && final(self).spec_positions() == old(self).spec_positions() && final(self).spec_shape()
                == old(self).spec_shape() && (final(r.unwrap()).contents().len() == product_of(
                old(self).spec_shape().spec_extents(),
            ) ==> final(self).wf()),
            r is None ==> !old(self).spec_map().dom().contains(position@) && *final(self) == *old(
                self,
            ),
    {
        let r = self.inner.get_mut(position);
        proof {
            if r is Some {
                old(self).inner.lemma_wf();
            }
        }
        r
    }

    /// Stores a chunk at a chunk coordinate, handing back the storage of any
    /// chunk it replaces. The chunk must carry this world's shape.
    pub fn insert(&mut self, position: Vec<i32>, chunk: Buffer<T, S, B>) -> (r: Option<T>)
        requires
            old(self).wf(),
            position@.len() == C,
            chunk.wf(),
            chunk.spec_shape().spec_extents() == old(self).spec_shape().spec_extents(),
        ensures
            final(self).wf(),
            final(self).spec_shape() == old(self).spec_shape(),
            final(self).spec_map() == old(self).spec_map().insert(
                position@,
                chunk.spec_storage(),
            ),
            match r {
                Some(prev) => old(self).spec_map().dom().contains(position@) && prev == old(
                    self,
                ).spec_map()[position@],
                None => !old(self).spec_map().dom().contains(position@),
            },
    {
        let (_shape, storage) = chunk.into_raw_parts();
        let r = self.inner.insert(position, storage);
        proof {
            old(self).inner.lemma_wf();
            self.inner.lemma_wf();
            let old_vals = old(self).inner.spec_values();
            let cap = product_of(self.shape.spec_extents());
            assert(storage.contents().len() == cap);
            if r is Some {
                let at = position_map::key_index(old(self).inner.spec_keys(), position@);
                assert(self.inner.spec_values() == old_vals.update(at, storage));
                assert forall|i: int| 0 <= i < self.inner.spec_values().len() implies (
                #[trigger] self.inner.spec_values()[i]).contents().len() == cap by {
                    if i != at {
                        assert(self.inner.spec_values()[i] == old_vals[i]);
                    }
                }
            } else {
                assert(self.inner@.dom().contains(position@));
                let at = position_map::key_index(self.inner.spec_keys(), position@);
                old_vals.insert_ensures(at, storage);
                assert(self.inner.spec_values() == old_vals.insert(at, storage));
                assert forall|i: int| 0 <= i < self.inner.spec_values().len() implies (
                #[trigger] self.inner.spec_values()[i]).contents().len() == cap by {
                    if i < at {
                        assert(self.inner.spec_values()[i] == old_vals[i]);
                    } else if i > at {
                        assert(self.inner.spec_values()[i] == old_vals[i - 1]);
                    } else {
                        assert(self.inner.spec_values()[i] == storage);
                    }
                }
            }
        }
        r
    }

    /// Detaches and returns the chunk storage at a chunk coordinate. An
    /// absent coordinate returns `None` and leaves the world exactly as it
    /// was: same chunks, same iteration order.
    pub fn remove(&mut self, position: &Vec<i32>) -> (r: Option<T>)
        requires
            old(self).wf(),
            position@.len() == C,
        ensures
            final(self).wf(),
            final(self).spec_shape() == old(self).spec_shape(),
            final(self).spec_map() == old(self).spec_map().remove(position@),
            match r {
                Some(storage) => old(self).spec_map().dom().contains(position@) && storage == old(
                    self,
                ).spec_map()[position@],
                None => !old(self).spec_map().dom().contains(position@) && *final(self) == *old(
                    self,
                ),
            },
    {
        let r = self.inner.remove(position);
        proof {
            old(self).inner.lemma_wf();
            let cap = product_of(self.shape.spec_extents());
            if r is Some {
                let at = position_map::key_index(old(self).inner.spec_keys(), position@);
                let old_vals = old(self).inner.spec_values();
                old_vals.remove_ensures(at);
                assert(self.inner.spec_values() == old_vals.remove(at));
                assert forall|i: int| 0 <= i < self.inner.spec_values().len() implies (
                #[trigger] self.inner.spec_values()[i]).contents().len() == cap by {
                    if i < at {
                        assert(self.inner.spec_values()[i] == old_vals[i]);
                    } else {
                        assert(self.inner.spec_values()[i] == old_vals[i + 1]);
                    }
                }
            }
        }
        r
    }

    /// The entry at a chunk coordinate, occupied or vacant, for lazy chunk
    /// creation: a chunk can be allocated only once it is truly needed.
    pub fn entry(&mut self, position: Vec<i32>) -> (r: Entry<'_, T, S, C, B>)
        requires
            old(self).wf(),
            position@.len() == C,
        ensures
            r.wf(),
            r.spec_map() == old(self).spec_inner(),
            r.spec_shape() == old(self).spec_shape(),
            r.spec_position() == position@,
            final(self).spec_inner() == *final(r.spec_map_ref()),
            final(self).spec_shape() == old(self).spec_shape(),
            (r.spec_occupied() <==> old(self).spec_map().dom().contains(position@)),
    {
        proof {
            self.lemma_wf();
        }
        let inner = self.inner.entry(position);
        Entry { inner, shape: &self.shape }
    }

    /// The chunk-coordinate map itself.
    pub closed spec fn spec_inner(&self) -> PositionMap<T, C> {
        self.inner
    }

    /// Splits a world position into the coordinate of the chunk it falls in
    /// and the block position inside that chunk, by floor division: the
    /// block half is non-negative on every axis.
    pub fn world_to_chunk_block(&self, world: &Vec<i32>) -> (r: WorldCoordinate)
        requires
            self.wf(),
            world@.len() == W,
        ensures
            r.chunk@ == chunks_of(self.spec_shape().spec_extents(), world@).take(C as int),
            r.block@ == blocks_of(self.spec_shape().spec_extents(), world@),
            forall|i: int|
                0 <= i < r.block@.len() ==> 0 <= #[trigger] r.block@[i]
                    < self.spec_shape().spec_extents()[i],
            forall|i: int|
                0 <= i < C ==> #[trigger] (r.chunk@[i] * self.spec_shape().spec_extents()[i]
                    + r.block@[i]) == world@[i],
    {
        proof {
            self.lemma_wf();
        }
        self.shape.world_to_chunk_block(world, C)
    }

    /// The chunk half of a resolved world position.
    pub fn world_to_chunk(&self, position: &Vec<i32>) -> (r: Vec<i32>)
        requires
            self.wf(),
            position@.len() == W,
        ensures
            r@ == chunks_of(self.spec_shape().spec_extents(), position@).take(C as int),
    {
        let resolved = self.world_to_chunk_block(position);
        resolved.chunk
    }

    /// The block half of a resolved world position.
    pub fn world_to_block(&self, position: &Vec<i32>) -> (r: Vec<i32>)
        requires
            self.wf(),
            position@.len() == W,
        ensures
            r@ == blocks_of(self.spec_shape().spec_extents(), position@),
    {
        let resolved = self.world_to_chunk_block(position);
        resolved.block
    }

    /// Recombines a chunk coordinate and a block position into the world
    /// position they resolve from; chunk axes beyond `C` count as zero.
    pub fn chunk_block_to_world(&self, chunk: &Vec<i32>, block: &Vec<i32>) -> (r: Vec<i32>)
        requires
            self.wf(),
            chunk@.len() == C,
            block@.len() == B,
            forall|i: int|
                0 <= i < chunk@.len() ==> i32::MIN <= #[trigger] chunk@[i]
                    * self.spec_shape().spec_extents()[i] + block@[i] <= i32::MAX,
        ensures
            r@ == worlds_of(
                self.spec_shape().spec_extents(),
                zero_padded(chunk@, B as nat),
                block@,
            ),
            forall|i: int|
                0 <= i < r@.len() ==> #[trigger] r@[i] == zero_padded(chunk@, B as nat)[i]
                    * self.spec_shape().spec_extents()[i] + block@[i],
    {
        proof {
            self.lemma_wf();
        }
        self.shape.chunk_block_to_world(chunk, block)
    }
}

impl<
    T: Storage + ContiguousMemory,
    S: Shape<B>,
    const W: usize,
    const C: usize,
    const B: usize,
> Multiform<T, S, W, C, B> {
    /// The block at `block` inside the chunk at `chunk`: `None` when the
    /// chunk is absent or the block position is out of the shape's range,
    /// two ordinary conditions a sparse world does not tell apart.
    pub fn block(&self, chunk: &Vec<i32>, block: &Vec<i32>) -> (r: Option<&T::Item>)
        requires
            self.wf(),
            chunk@.len() == C,
            block@.len() == B,
        ensures
            match r {
                Some(item) => self.spec_map().dom().contains(chunk@) && valid_position(
                    self.spec_shape().spec_extents(),
                    block@,
                ) && *item == self.spec_map()[chunk@].contents()[index_of(
                    self.spec_shape().spec_extents(),
                    block@,
                )],
                None => !self.spec_map().dom().contains(chunk@) || !valid_position(
                    self.spec_shape().spec_extents(),
                    block@,
                ),
            },
    {
        proof {
            self.lemma_wf();
            self.shape.wf_facts();
        }
        let index = match self.shape.position_to_index(block) {
            Some(index) => index,
            None => {
                return None;
            },
        };
        let storage = match self.inner.get(chunk) {
            Some(storage) => storage,
            None => {
                return None;
            },
        };
        proof {
            assert(self.spec_map().dom().contains(chunk@));
            assert(storage.contents().len() == product_of(self.spec_shape().spec_extents()));
        }
        let slice = storage.as_slice();
        Some(&slice[index])
    }

    /// The block a world position resolves to: `None` exactly when no chunk
    /// has been inserted at the position's chunk coordinate.
    pub fn get_block(&self, position: &Vec<i32>) -> (r: Option<&T::Item>)
        requires
            self.wf(),
            position@.len() == W,
        ensures
            match r {
                Some(item) => self.spec_map().dom().contains(
                    chunks_of(self.spec_shape().spec_extents(), position@).take(C as int),
                ) && *item == self.spec_map()[chunks_of(
                    self.spec_shape().spec_extents(),
                    position@,
                ).take(C as int)].contents()[index_of(
                    self.spec_shape().spec_extents(),
                    blocks_of(self.spec_shape().spec_extents(), position@),
                )],
                None => !self.spec_map().dom().contains(
                    chunks_of(self.spec_shape().spec_extents(), position@).take(C as int),
                ),
            },
    {
        let resolved = self.world_to_chunk_block(position);
        proof {
            self.lemma_wf();
            assert(valid_position(self.spec_shape().spec_extents(), resolved.block@));
        }
        self.block(&resolved.chunk, &resolved.block)
    }
}

impl<
    T: Storage + ContiguousMemoryMut,
    S: Shape<B>,
    const W: usize,
    const C: usize,
    const B: usize,
> Multiform<T, S, W, C, B> {
    /// Exclusive access to the block at `block` inside the chunk at `chunk`.
    pub fn block_mut(&mut self, chunk: &Vec<i32>, block: &Vec<i32>) -> (r: Option<&mut T::Item>)
        requires
            old(self).wf(),
            chunk@.len() == C,
            block@.len() == B,
        ensures
            r is Some ==> old(self).spec_map().dom().contains(chunk@) && valid_position(
                old(self).spec_shape().spec_extents(),
                block@,
            ) && *r.unwrap() == old(self).spec_map()[chunk@].contents()[index_of(
                old(self).spec_shape().spec_extents(),
                block@,
            )] && final(self).wf() && final(self).spec_shape() == old(self).spec_shape() && final(self).spec_positions() == old(self).spec_positions() && final(self).spec_map().dom() == old(
                self,
            ).spec_map().dom() && final(self).spec_map()[chunk@].contents() == old(
                self,
            ).spec_map()[chunk@].contents().update(
                index_of(old(self).spec_shape().spec_extents(), block@),
                *final(r.unwrap()),
            ) && (forall|q: Seq<i32>|
                old(self).spec_map().dom().contains(q) && q != chunk@
                    ==> #[trigger] final(self).spec_map()[q] == old(self).spec_map()[q]),
            r is None ==> (!old(self).spec_map().dom().contains(chunk@) || !valid_position(
                old(self).spec_shape().spec_extents(),
                block@,
            )) && *final(self) == *old(self),
    {
        proof {
            self.lemma_wf();
            self.shape.wf_facts();
        }
        let index = match self.shape.position_to_index(block) {
            Some(index) => index,
            None => {
                return None;
            },
        };
        let storage = match self.inner.get_mut(chunk) {
            Some(storage) => storage,
            None => {
                return None;
            },
        };
        proof {
            old(self).inner.lemma_wf();
        }
        let item = storage.element_mut(index);
        Some(item)
    }

    /// Exclusive access to the block a world position resolves to.
    pub fn get_block_mut(&mut self, position: &Vec<i32>) -> (r: Option<&mut T::Item>)
        requires
            old(self).wf(),
            position@.len() == W,
        ensures
            r is Some ==> old(self).spec_map().dom().contains(
                chunks_of(old(self).spec_shape().spec_extents(), position@).take(C as int),
            ) && final(self).wf() && final(self).spec_shape() == old(self).spec_shape() && final(self).spec_positions() == old(self).spec_positions() && *r.unwrap() == old(
                self,
            ).spec_map()[chunks_of(old(self).spec_shape().spec_extents(), position@).take(
                C as int,
            )].contents()[index_of(
                old(self).spec_shape().spec_extents(),
                blocks_of(old(self).spec_shape().spec_extents(), position@),
            )],
            r is None ==> !old(self).spec_map().dom().contains(
                chunks_of(old(self).spec_shape().spec_extents(), position@).take(C as int),
            ) && *final(self) == *old(self),
    {
        let resolved = self.world_to_chunk_block(position);
        proof {
            self.lemma_wf();
            assert(valid_position(self.spec_shape().spec_extents(), resolved.block@));
        }
        self.block_mut(&resolved.chunk, &resolved.block)
    }
}

/// A chunk coordinate's slot in a world: occupied or vacant, with the
/// world's shape at hand so a vacant slot can allocate its chunk lazily.
pub struct Entry<'a, T, S, const C: usize, const B: usize> {
    inner: position_map::Entry<'a, T, C>,
    shape: &'a S,
}

impl<'a, T: Storage, S: Shape<B>, const C: usize, const B: usize> Entry<'a, T, S, C, B> {
    /// The chunk-coordinate map as this entry found it.
    pub closed spec fn spec_map(self) -> PositionMap<T, C> {
        self.inner.spec_map()
    }

    /// The borrow this entry holds on the chunk-coordinate map.
    pub closed spec fn spec_map_ref(self) -> &'a mut PositionMap<T, C> {
        self.inner.spec_map_ref()
    }

    /// The chunk coordinate this entry stands for.
    pub closed spec fn spec_position(self) -> Seq<i32> {
        self.inner.spec_position()
    }

    /// The shape chunks of this world share.
    pub closed spec fn spec_shape(self) -> S {
        *self.shape
    }

    /// Whether a chunk is already stored at the entry's coordinate.
    pub closed spec fn spec_occupied(self) -> bool {
        self.inner is Occupied
    }

    /// The slot this entry wraps.
    pub closed spec fn spec_entry(self) -> position_map::Entry<'a, T, C> {
        self.inner
    }

    /// The entry's invariant: a well-formed slot in the map, the world's
    /// shape, and every stored chunk filled to the shape's capacity.
    pub open spec fn wf(self) -> bool {
        &&& self.spec_entry().wf()
        &&& self.spec_shape().wf()
        &&& forall|i: int|
            0 <= i < self.spec_map().spec_values().len()
                ==> (#[trigger] self.spec_map().spec_values()[i]).contents().len() == product_of(
                self.spec_shape().spec_extents(),
            )
    }

    /// The chunk coordinate this entry stands for.
    pub fn position(&self) -> (r: Vec<i32>)
        requires
            self.wf(),
        ensures
            r@ == self.spec_position(),
    {
        self.inner.position()
    }

    /// The chunk storage at the entry's coordinate, when there is one.
    pub fn value_mut(self) -> (r: Option<&'a mut T>)
        requires
            self.wf(),
        ensures
            r is Some ==> self.spec_occupied() && *r.unwrap()
                == self.spec_map()@[self.spec_position()] && final(self.spec_map_ref()).wf()
                && final(self.spec_map_ref())@ == self.spec_map()@.insert(
                self.spec_position(),
                *final(r.unwrap()),
            ) && final(self.spec_map_ref()).spec_keys() == self.spec_map().spec_keys(),
            r is None ==> !self.spec_occupied() && *final(self.spec_map_ref())
                == self.spec_map(),
    {
        self.inner.value_mut()
    }

    /// The chunk storage at the entry's coordinate, after storing `default`
    /// there if the coordinate was vacant.
    pub fn or_insert(self, default: T) -> (r: &'a mut T)
        requires
            self.wf(),
            default.contents().len() == product_of(self.spec_shape().spec_extents()),
        ensures
            (*r).contents().len() == product_of(self.spec_shape().spec_extents()),
            final(self.spec_map_ref()).wf(),
            final(self.spec_map_ref())@ == self.spec_map()@.insert(
                self.spec_position(),
                *final(r),
            ),
    {
        proof {
            if self.inner is Occupied {
                let e = self.inner->Occupied_0;
                e.spec_map().lemma_wf();
                assert(self.spec_map() == e.spec_map());
                assert((self.spec_map().spec_values()[e.spec_at()]).contents().len()
                    == product_of(self.spec_shape().spec_extents()));
                assert(e.spec_value() == self.spec_map().spec_values()[e.spec_at()]);
            }
        }
        self.inner.or_insert(default)
    }

    /// The chunk storage at the entry's coordinate, after storing the
    /// closure's result there if the coordinate was vacant; the closure runs
    /// only then, so a chunk is allocated only when truly needed.
    pub fn or_insert_with<F: FnOnce() -> T>(self, default: F) -> (r: &'a mut T)
        requires
            self.wf(),
            !self.spec_occupied() ==> call_requires(default, ()),
            forall|v: T|
                call_ensures(default, (), v) ==> (#[trigger] v.contents()).len() == product_of(
                    self.spec_shape().spec_extents(),
                ),
        ensures
            (*r).contents().len() == product_of(self.spec_shape().spec_extents()),
            final(self.spec_map_ref()).wf(),
            final(self.spec_map_ref())@ == self.spec_map()@.insert(
                self.spec_position(),
                *final(r),
            ),
    {
        let Entry { inner, .. } = self;
        match inner {
            position_map::Entry::Occupied(e) => {
                proof {
                    e.spec_map().lemma_wf();
                    assert(self.spec_map() == e.spec_map());
                    assert((self.spec_map().spec_values()[e.spec_at()]).contents().len()
                        == product_of(self.spec_shape().spec_extents()));
                    assert(e.spec_value() == self.spec_map().spec_values()[e.spec_at()]);
                }
                e.value_mut()
            },
            position_map::Entry::Vacant(e) => e.insert(default()),
        }
    }

    /// Like `or_insert_with`, handing the vacant chunk coordinate to the
    /// closure.
    pub fn or_insert_with_key<F: FnOnce(Vec<i32>) -> T>(self, default: F) -> (r: &'a mut T)
        requires
            self.wf(),
            !self.spec_occupied() ==> forall|k: Vec<i32>|
                k@ == self.spec_position() ==> call_requires(default, (k,)),
            forall|k: Vec<i32>, v: T|
                #[trigger] call_ensures(default, (k,), v) ==> v.contents().len() == product_of(
                    self.spec_shape().spec_extents(),
                ),
        ensures
            (*r).contents().len() == product_of(self.spec_shape().spec_extents()),
            final(self.spec_map_ref()).wf(),
            final(self.spec_map_ref())@ == self.spec_map()@.insert(
                self.spec_position(),
                *final(r),
            ),
    {
        let Entry { inner, .. } = self;
        match inner {
            position_map::Entry::Occupied(e) => {
                proof {
                    e.spec_map().lemma_wf();
                    assert(self.spec_map() == e.spec_map());
                    assert((self.spec_map().spec_values()[e.spec_at()]).contents().len()
                        == product_of(self.spec_shape().spec_extents()));
                    assert(e.spec_value() == self.spec_map().spec_values()[e.spec_at()]);
                }
                e.value_mut()
            },
            position_map::Entry::Vacant(e) => {
                let key = e.position();
                e.insert(default(key))
            },
        }
    }

    /// The chunk storage at the entry's coordinate, after allocating a
    /// chunk of default items there if the coordinate was vacant.
    pub fn or_default(self) -> (r: &'a mut T) where T: FromFn, T::Item: Default
        requires
            self.wf(),
        ensures
            (*r).contents().len() == product_of(self.spec_shape().spec_extents()),
            final(self.spec_map_ref()).wf(),
            final(self.spec_map_ref())@ == self.spec_map()@.insert(
                self.spec_position(),
                *final(r),
            ),
    {
        proof {
            self.spec_shape().wf_facts();
        }
        let Entry { inner, shape } = self;
        let capacity = shape.capacity();
        match inner {
            position_map::Entry::Occupied(e) => {
                proof {
                    e.spec_map().lemma_wf();
                    assert(self.spec_map() == e.spec_map());
                    assert((self.spec_map().spec_values()[e.spec_at()]).contents().len()
                        == product_of(self.spec_shape().spec_extents()));
                    assert(e.spec_value() == self.spec_map().spec_values()[e.spec_at()]);
                }
                e.value_mut()
            },
            position_map::Entry::Vacant(e) => {
                let g = |index: usize| -> T::Item { Default::default() };
                let storage = T::from_fn(capacity, g);
                e.insert(storage)
            },
        }
    }
}

/// A world whose world, chunk and block spaces share one dimensionality.
pub type Uniform<T, S, const D: usize> = Multiform<T, S, D, D, D>;

/// A world whose chunk coordinates use fewer axes than its blocks.
pub type Subform<T, S, const C: usize, const B: usize> = Multiform<T, S, B, C, B>;

} // verus!
