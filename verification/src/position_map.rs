//! A sparse ordered map from integer positions to values.
//!
//! Entries are kept in two parallel vectors sorted strictly by the
//! reverse-lexicographic order on their keys, so iteration is deterministic
//! and lookups walk a sorted run.

use crate::ordering::lemma_rlex_irreflexive;
use crate::ordering::lemma_rlex_transitive;
use crate::ordering::lemma_rlex_trichotomy;
use crate::ordering::rlex_compare;
use crate::ordering::rlex_less;
use core::cmp::Ordering;
use vstd::pervasive::VecAdditionalExecFns;
use vstd::prelude::*;

verus! {

/// The keys as mathematical sequences.
pub open spec fn key_views(keys: Seq<Vec<i32>>) -> Seq<Seq<i32>> {
    keys.map_values(|k: Vec<i32>| k@)
}

/// Strictly ascending in reverse-lexicographic order.
pub open spec fn ordered_keys(kv: Seq<Seq<i32>>) -> bool {
    forall|i: int, j: int| 0 <= i < j < kv.len() ==> #[trigger] rlex_less(kv[i], kv[j])
}

/// Whether some entry carries the key `k`.
pub open spec fn has_key(kv: Seq<Seq<i32>>, k: Seq<i32>) -> bool {
    exists|i: int| 0 <= i < kv.len() && kv[i] == k
}

/// The index of the entry carrying the key `k`.
pub open spec fn key_index(kv: Seq<Seq<i32>>, k: Seq<i32>) -> int {
    choose|i: int| 0 <= i < kv.len() && kv[i] == k
}

/// In a strictly ordered key sequence every key occurs once, so `key_index`
/// is the only index carrying its key.
pub proof fn lemma_key_index_unique(kv: Seq<Seq<i32>>, k: Seq<i32>)
    requires
        ordered_keys(kv),
        has_key(kv, k),
    ensures
        0 <= key_index(kv, k) < kv.len(),
        kv[key_index(kv, k)] == k,
        forall|i: int| 0 <= i < kv.len() && kv[i] == k ==> i == key_index(kv, k),
{
    let at = key_index(kv, k);
    assert(0 <= at < kv.len() && kv[at] == k);
    assert forall|i: int| 0 <= i < kv.len() && kv[i] == k implies i == at by {
        if i < at {
            assert(rlex_less(kv[i], kv[at]));
            lemma_rlex_irreflexive(k);
        } else if at < i {
            assert(rlex_less(kv[at], kv[i]));
            lemma_rlex_irreflexive(k);
        }
    }
}

/// The map carried by parallel key and value sequences.
pub open spec fn map_of<T>(kv: Seq<Seq<i32>>, vals: Seq<T>) -> Map<Seq<i32>, T> {
    Map::new(|k: Seq<i32>| has_key(kv, k), |k: Seq<i32>| vals[key_index(kv, k)])
}

/// Inserting a key between the entries below and above it keeps the key
/// sequence ordered, and acts on the carried map as a map insertion.
proof fn lemma_map_of_insert<T>(kv: Seq<Seq<i32>>, vals: Seq<T>, at: int, k: Seq<i32>, v: T)
    requires
        ordered_keys(kv),
        kv.len() == vals.len(),
        0 <= at <= kv.len(),
        forall|j: int| 0 <= j < at ==> rlex_less(#[trigger] kv[j], k),
        forall|j: int| at <= j < kv.len() ==> rlex_less(k, #[trigger] kv[j]),
    ensures
        ordered_keys(kv.insert(at, k)),
        map_of(kv.insert(at, k), vals.insert(at, v)) == map_of(kv, vals).insert(k, v),
{
    let nkv = kv.insert(at, k);
    let nvals = vals.insert(at, v);
    kv.insert_ensures(at, k);
    vals.insert_ensures(at, v);
    assert forall|i: int, j: int| 0 <= i < j < nkv.len() implies #[trigger] rlex_less(
        nkv[i],
        nkv[j],
    ) by {
        if i == at {
            assert(nkv[j] == kv[j - 1]);
        } else if j == at {
            assert(nkv[i] == kv[i]);
        } else {
            let i0: int = if i < at {
                i
            } else {
                i - 1
            };
            let j0: int = if j < at {
                j
            } else {
                j - 1
            };
            assert(nkv[i] == kv[i0] && nkv[j] == kv[j0]);
            assert(rlex_less(kv[i0], kv[j0]));
        }
    }
    assert forall|q: Seq<i32>| true implies (has_key(nkv, q) <==> (q == k || has_key(kv, q))) by {
        if has_key(nkv, q) {
            let i = choose|i: int| 0 <= i < nkv.len() && nkv[i] == q;
            if i != at {
                let i0: int = if i < at {
                    i
                } else {
                    i - 1
                };
                assert(kv[i0] == q);
            }
        }
        if q == k {
            assert(nkv[at] == q);
        }
        if has_key(kv, q) {
            let i = choose|i: int| 0 <= i < kv.len() && kv[i] == q;
            let i1: int = if i < at {
                i
            } else {
                i + 1
            };
            assert(nkv[i1] == q);
        }
    }
    assert forall|q: Seq<i32>| #[trigger] has_key(nkv, q) implies nvals[key_index(nkv, q)] == (
    if q == k {
        v
    } else {
        vals[key_index(kv, q)]
    }) by {
        lemma_key_index_unique(nkv, q);
        let i = key_index(nkv, q);
        if q == k {
            lemma_rlex_irreflexive(k);
            assert(nkv[at] == k);
            assert(i == at);
        } else {
            assert(nkv[i] == q && i != at);
            let i0: int = if i < at {
                i
            } else {
                i - 1
            };
            assert(kv[i0] == q);
            lemma_key_index_unique(kv, q);
            assert(key_index(kv, q) == i0);
            assert(nvals[i] == vals[i0]);
        }
    }
    assert(map_of(nkv, nvals) =~= map_of(kv, vals).insert(k, v));
}

/// Removing an entry keeps the key sequence ordered and acts on the carried
/// map as a map removal.
proof fn lemma_map_of_remove<T>(kv: Seq<Seq<i32>>, vals: Seq<T>, at: int)
    requires
        ordered_keys(kv),
        kv.len() == vals.len(),
        0 <= at < kv.len(),
    ensures
        ordered_keys(kv.remove(at)),
        map_of(kv.remove(at), vals.remove(at)) == map_of(kv, vals).remove(kv[at]),
{
    let nkv = kv.remove(at);
    let nvals = vals.remove(at);
    kv.remove_ensures(at);
    vals.remove_ensures(at);
    assert forall|i: int, j: int| 0 <= i < j < nkv.len() implies #[trigger] rlex_less(
        nkv[i],
        nkv[j],
    ) by {
        let i0: int = if i < at {
            i
        } else {
            i + 1
        };
        let j0: int = if j < at {
            j
        } else {
            j + 1
        };
        assert(nkv[i] == kv[i0] && nkv[j] == kv[j0]);
        assert(rlex_less(kv[i0], kv[j0]));
    }
    assert forall|q: Seq<i32>| true implies (has_key(nkv, q) <==> (has_key(kv, q) && q != kv[at])) by {
        lemma_key_index_unique(kv, kv[at]);
        if has_key(nkv, q) {
            let i = choose|i: int| 0 <= i < nkv.len() && nkv[i] == q;
            let i0: int = if i < at {
                i
            } else {
                i + 1
            };
            assert(kv[i0] == q);
            if q == kv[at] {
                assert(i0 == at);
            }
        }
        if has_key(kv, q) && q != kv[at] {
            let i = choose|i: int| 0 <= i < kv.len() && kv[i] == q;
            assert(i != at);
            let i1: int = if i < at {
                i
            } else {
                i - 1
            };
            assert(nkv[i1] == q);
        }
    }
    assert forall|q: Seq<i32>| #[trigger] has_key(nkv, q) implies nvals[key_index(nkv, q)]
        == vals[key_index(kv, q)] by {
        lemma_key_index_unique(nkv, q);
        let i = key_index(nkv, q);
        let i0: int = if i < at {
            i
        } else {
            i + 1
        };
        assert(kv[i0] == q);
        lemma_key_index_unique(kv, q);
        assert(key_index(kv, q) == i0);
        assert(nvals[i] == vals[i0]);
    }
    assert(map_of(nkv, nvals) =~= map_of(kv, vals).remove(kv[at]));
}

/// Overwriting the value of one entry acts on the carried map as a map
/// insertion on that entry's key.
proof fn lemma_map_of_update<T>(kv: Seq<Seq<i32>>, vals: Seq<T>, at: int, v: T)
    requires
        ordered_keys(kv),
        kv.len() == vals.len(),
        0 <= at < kv.len(),
    ensures
        map_of(kv, vals.update(at, v)) == map_of(kv, vals).insert(kv[at], v),
{
    let nvals = vals.update(at, v);
    assert forall|q: Seq<i32>| #[trigger] has_key(kv, q) implies nvals[key_index(kv, q)] == (
    if q == kv[at] {
        v
    } else {
        vals[key_index(kv, q)]
    }) by {
        lemma_key_index_unique(kv, q);
        if q == kv[at] {
            assert(key_index(kv, q) == at);
        } else {
            assert(key_index(kv, q) != at);
        }
    }
    assert(has_key(kv, kv[at]));
    assert(map_of(kv, nvals) =~= map_of(kv, vals).insert(kv[at], v));
}

/// A sparse ordered map from `D`-dimensional positions to values of `T`,
/// iterated in reverse-lexicographic key order.
pub struct PositionMap<T, const D: usize> {
    keys: Vec<Vec<i32>>,
    values: Vec<T>,
}

impl<T, const D: usize> View for PositionMap<T, D> {
    type V = Map<Seq<i32>, T>;

    closed spec fn view(&self) -> Map<Seq<i32>, T> {
        map_of(key_views(self.keys@), self.values@)
    }
}

impl<T, const D: usize> PositionMap<T, D> {
    /// The key sequence, in iteration order.
    pub closed spec fn spec_keys(&self) -> Seq<Seq<i32>> {
        key_views(self.keys@)
    }

    /// The value sequence, aligned with `spec_keys`.
    pub closed spec fn spec_values(&self) -> Seq<T> {
        self.values@
    }

    /// The map's invariant: one value per key, every key of dimension `D`,
    /// keys strictly ascending in reverse-lexicographic order.
    pub closed spec fn wf(&self) -> bool {
        &&& self.keys@.len() == self.values@.len()
        &&& forall|i: int| 0 <= i < self.keys@.len() ==> #[trigger] self.keys@[i]@.len() == D
        &&& ordered_keys(key_views(self.keys@))
    }

    /// What the invariant guarantees, and how the map view relates to the
    /// key and value sequences.
    pub proof fn lemma_wf(&self)
        requires
            self.wf(),
        ensures
            self.spec_keys().len() == self.spec_values().len(),
            forall|i: int| 0 <= i < self.spec_keys().len() ==> #[trigger] self.spec_keys()[i].len() == D,
            ordered_keys(self.spec_keys()),
            forall|k: Seq<i32>| self@.dom().contains(k) <==> has_key(self.spec_keys(), k),
            forall|i: int|
                0 <= i < self.spec_keys().len() ==> self@.dom().contains(#[trigger] self.spec_keys()[i])
                    && self@[self.spec_keys()[i]] == self.spec_values()[i],
            forall|k: Seq<i32>| #[trigger]
                self@.dom().contains(k) ==> 0 <= key_index(self.spec_keys(), k)
                    < self.spec_values().len() && self@[k] == self.spec_values()[key_index(
                    self.spec_keys(),
                    k,
                )] && self.spec_keys()[key_index(self.spec_keys(), k)] == k,
    {
        assert forall|i: int| 0 <= i < self.spec_keys().len() implies self@.dom().contains(
            #[trigger] self.spec_keys()[i],
        ) && self@[self.spec_keys()[i]] == self.spec_values()[i] by {
            lemma_key_index_unique(self.spec_keys(), self.spec_keys()[i]);
        }
        assert forall|k: Seq<i32>| #[trigger] self@.dom().contains(k) implies 0 <= key_index(
            self.spec_keys(),
            k,
        ) < self.spec_values().len() && self@[k] == self.spec_values()[key_index(
            self.spec_keys(),
            k,
        )] && self.spec_keys()[key_index(self.spec_keys(), k)] == k by {
            lemma_key_index_unique(self.spec_keys(), k);
        }
    }

    /// An empty map.
    pub fn new() -> (r: Self)
        ensures
            r.wf(),
            r.spec_keys() == Seq::<Seq<i32>>::empty(),
            r.spec_values() == Seq::<T>::empty(),
            r@ == Map::<Seq<i32>, T>::empty(),
    {
        let r = PositionMap { keys: Vec::new(), values: Vec::new() };
        proof {
            assert(key_views(r.keys@) =~= Seq::<Seq<i32>>::empty());
            assert(r@ =~= Map::<Seq<i32>, T>::empty());
        }
        r
    }

    /// How many positions hold a value.
    pub fn len(&self) -> (r: usize)
        requires
            self.wf(),
        ensures
            r == self.spec_keys().len(),
    {
        self.keys.len()
    }

    /// Where `position` sits in the sorted key run: the index of its entry
    /// when present, else the index the entry would be inserted at.
    fn locate(&self, position: &Vec<i32>) -> (r: (bool, usize))
        requires
            self.wf(),
            position@.len() == D,
        ensures
            r.1 <= self.spec_keys().len(),
            forall|j: int| 0 <= j < r.1 ==> rlex_less(#[trigger] self.spec_keys()[j], position@),
            forall|j: int|
                r.1 <= j < self.spec_keys().len() && j != r.1 ==> rlex_less(
                    position@,
                    #[trigger] self.spec_keys()[j],
                ),
            r.0 <==> (r.1 < self.spec_keys().len() && self.spec_keys()[r.1 as int] == position@),
            !r.0 && r.1 < self.spec_keys().len() ==> rlex_less(
                position@,
                self.spec_keys()[r.1 as int],
            ),
            r.0 == has_key(self.spec_keys(), position@),
            r.0 ==> key_index(self.spec_keys(), position@) == r.1,
    {
        let ghost kv = self.spec_keys();
        proof {
            assert forall|j: int| 0 <= j < kv.len() implies #[trigger] kv[j].len() == D by {
                assert(kv[j] == self.keys@[j]@);
            }
        }
        let n = self.keys.len();
        let mut at: usize = 0;
        let mut found = false;
        let mut stop = false;
        while at < n && !stop
            invariant
                self.wf(),
                position@.len() == D,
                kv == self.spec_keys(),
                forall|j: int| 0 <= j < kv.len() ==> #[trigger] kv[j].len() == D,
                n == kv.len(),
                at <= n,
                forall|j: int| 0 <= j < at ==> rlex_less(#[trigger] kv[j], position@),
                found ==> stop && at < n && kv[at as int] == position@,
                stop ==> at < n && !rlex_less(kv[at as int], position@),
                stop && !found ==> kv[at as int] != position@,
                !stop ==> !found,
            decreases n - at, 1int - (if stop { 1int } else { 0int }),
        {
            let ordering = rlex_compare(&self.keys[at], position);
            if matches!(ordering, Ordering::Less) {
                at = at + 1;
            } else {
                stop = true;
                if matches!(ordering, Ordering::Equal) {
                    found = true;
                }
            }
        }
        proof {
            assert(at == n || stop);
            if stop && !found {
                lemma_rlex_trichotomy(kv[at as int], position@);
                assert(rlex_less(position@, kv[at as int]));
            }
            assert forall|j: int| at <= j < kv.len() && j != at implies rlex_less(
                position@,
                #[trigger] kv[j],
            ) by {
                assert(rlex_less(kv[at as int], kv[j]));
                if found {
                    assert(kv[at as int] == position@);
                } else {
                    lemma_rlex_transitive(position@, kv[at as int], kv[j]);
                }
            }
            if found {
                assert(has_key(kv, position@));
                lemma_key_index_unique(kv, position@);
            } else {
                assert forall|j: int| 0 <= j < kv.len() implies kv[j] != position@ by {
                    lemma_rlex_irreflexive(position@);
                }
                assert(!has_key(kv, position@));
            }
        }
        (found, at)
    }

    /// The value at `position`, or `None` when the position is absent.
    pub fn get(&self, position: &Vec<i32>) -> (r: Option<&T>)
        requires
            self.wf(),
            position@.len() == D,
        ensures
            match r {
                Some(v) => self@.dom().contains(position@) && *v == self@[position@],
                None => !self@.dom().contains(position@),
            },
    {
        let (found, at) = self.locate(position);
        if found {
            Some(&self.values[at])
        } else {
            None
        }
    }

    /// Exclusive access to the value at `position`; the map afterwards holds
    /// whatever the caller wrote through it, under the same key order.
    pub fn get_mut(&mut self, position: &Vec<i32>) -> (r: Option<&mut T>)
        requires
            old(self).wf(),
            position@.len() == D,
        ensures
            r is Some ==> old(self)@.dom().contains(position@) && *r.unwrap() == old(
                self,
            )@[position@] && final(self)@ == old(self)@.insert(position@, *final(r.unwrap()))
                && final(self).wf() && final(self).spec_keys() == old(self).spec_keys()
                && final(self).spec_values() == old(self).spec_values().update(
                key_index(old(self).spec_keys(), position@),
                *final(r.unwrap()),
            ),
            r is None ==> !old(self)@.dom().contains(position@) && *final(self) == *old(self)
                && final(self).wf(),
    {
        let (found, at) = self.locate(position);
        if found {
            let v = &mut self.values[at];
            proof {
                lemma_map_of_update(
                    old(self).spec_keys(),
                    old(self).spec_values(),
                    at as int,
                    *final(v),
                );
            }
            Some(v)
        } else {
            None
        }
    }

    /// Stores `value` at `position`, handing back the value it replaces.
    ///
    /// Present keys keep their place; an absent key enters at its sorted
    /// position, so iteration order stays reverse-lexicographic.
    pub fn insert(&mut self, position: Vec<i32>, value: T) -> (r: Option<T>)
        requires
            old(self).wf(),
            position@.len() == D,
        ensures
            final(self).wf(),
            final(self)@ == old(self)@.insert(position@, value),
            match r {
                Some(prev) => old(self)@.dom().contains(position@) && prev == old(
                    self,
                )@[position@] && final(self).spec_keys() == old(self).spec_keys()
                    && final(self).spec_values() == old(self).spec_values().update(
                    key_index(old(self).spec_keys(), position@),
                    value,
                ),
                None => !old(self)@.dom().contains(position@) && final(self).spec_keys() == old(
                    self,
                ).spec_keys().insert(
                    key_index(final(self).spec_keys(), position@),
                    position@,
                ) && final(self).spec_values() == old(self).spec_values().insert(
                    key_index(final(self).spec_keys(), position@),
                    value,
                ) && final(self).spec_keys().len() == old(self).spec_keys().len() + 1 && 0
                    <= key_index(final(self).spec_keys(), position@) <= old(self).spec_keys().len(),
            },
            final(self)@.dom().contains(position@),
    {
        let (found, at) = self.locate(&position);
        let ghost kv = self.spec_keys();
        let ghost vals = self.spec_values();
        if found {
            proof {
                lemma_map_of_update(kv, vals, at as int, value);
            }
            let mut prev = value;
            self.values.set_and_swap(at, &mut prev);
            proof {
                assert(self.spec_keys() =~= kv);
            }
            Some(prev)
        } else {
            proof {
                lemma_map_of_insert(kv, vals, at as int, position@, value);
            }
            let ghost old_keys = self.keys@;
            self.keys.insert(at, position);
            self.values.insert(at, value);
            proof {
                old_keys.insert_ensures(at as int, position);
                kv.insert_ensures(at as int, position@);
                vals.insert_ensures(at as int, value);
                assert(self.spec_keys() =~= kv.insert(at as int, position@));
                assert(self.spec_values() =~= vals.insert(at as int, value));
                assert(self.spec_keys()[at as int] == position@);
                lemma_key_index_unique(self.spec_keys(), position@);
                assert(key_index(self.spec_keys(), position@) == at);
                assert(forall|i: int|
                    0 <= i < self.keys@.len() ==> #[trigger] self.keys@[i]@.len() == D);
            }
            None
        }
    }

    /// Detaches and returns the value at `position`. An absent position
    /// returns `None` and leaves the map exactly as it was.
    pub fn remove(&mut self, position: &Vec<i32>) -> (r: Option<T>)
        requires
            old(self).wf(),
            position@.len() == D,
        ensures
            final(self).wf(),
            final(self)@ == old(self)@.remove(position@),
            match r {
                Some(v) => old(self)@.dom().contains(position@) && v == old(self)@[position@]
                    && final(self).spec_keys() == old(self).spec_keys().remove(
                    key_index(old(self).spec_keys(), position@),
                ) && final(self).spec_values() == old(self).spec_values().remove(
                    key_index(old(self).spec_keys(), position@),
                ),
                None => !old(self)@.dom().contains(position@) && *final(self) == *old(self),
            },
    {
        let (found, at) = self.locate(position);
        let ghost kv = self.spec_keys();
        let ghost vals = self.spec_values();
        if found {
            proof {
                lemma_map_of_remove(kv, vals, at as int);
            }
            self.keys.remove(at);
            let v = self.values.remove(at);
            proof {
                assert(self.spec_keys() =~= kv.remove(at as int));
                assert(self.spec_values() =~= vals.remove(at as int));
                assert(forall|i: int|
                    0 <= i < self.keys@.len() ==> #[trigger] self.keys@[i]@.len() == D);
            }
            Some(v)
        } else {
            proof {
                assert(self@ =~= old(self)@.remove(position@));
            }
            None
        }
    }

    /// The stored positions, in iteration order.
    pub fn positions(&self) -> (r: &Vec<Vec<i32>>)
        requires
            self.wf(),
        ensures
            key_views(r@) == self.spec_keys(),
    {
        &self.keys
    }

    /// The stored values, in the same order as `positions`.
    pub fn values(&self) -> (r: &Vec<T>)
        requires
            self.wf(),
        ensures
            r@ == self.spec_values(),
    {
        &self.values
    }

    /// Exclusive access to the stored values, in the same order as
    /// `positions`; the keys cannot change through it.
    pub fn values_mut(&mut self) -> (r: &mut Vec<T>)
        requires
            old(self).wf(),
        ensures
            r@ == old(self).spec_values(),
            final(self).spec_values() == final(r)@,
            final(self).spec_keys() == old(self).spec_keys(),
            final(r)@.len() == old(self).spec_values().len() ==> final(self).wf(),
    {
        &mut self.values
    }

    /// Both columns of the map at once: positions and their values, index
    /// by index, in iteration order.
    pub fn iter(&self) -> (r: (&Vec<Vec<i32>>, &Vec<T>))
        requires
            self.wf(),
        ensures
            key_views(r.0@) == self.spec_keys(),
            r.1@ == self.spec_values(),
            r.0@.len() == r.1@.len(),
    {
        (&self.keys, &self.values)
    }

    /// The entry at `position`, occupied or vacant, for in-place
    /// manipulation and lazy insertion.
    pub fn entry(&mut self, position: Vec<i32>) -> (r: Entry<'_, T, D>)
        requires
            old(self).wf(),
            position@.len() == D,
        ensures
            r.wf(),
            r.spec_map() == *old(self),
            r.spec_position() == position@,
            *final(self) == *final(r.spec_map_ref()),
            r is Occupied <==> old(self)@.dom().contains(position@),
    {
        let (found, at) = self.locate(&position);
        if found {
            proof {
                lemma_key_index_unique(self.spec_keys(), position@);
            }
            Entry::Occupied(OccupiedEntry { map: self, at })
        } else {
            Entry::Vacant(VacantEntry { map: self, at, position })
        }
    }

    /// Like `iter`, with exclusive access to the values.
    pub fn iter_mut(&mut self) -> (r: (&Vec<Vec<i32>>, &mut Vec<T>))
        requires
            old(self).wf(),
        ensures
            key_views(r.0@) == old(self).spec_keys(),
            r.1@ == old(self).spec_values(),
            final(self).spec_values() == final(r.1)@,
            final(self).spec_keys() == old(self).spec_keys(),
            final(r.1)@.len() == old(self).spec_values().len() ==> final(self).wf(),
    {
        (&self.keys, &mut self.values)
    }
}

/// A present entry: exclusive access to one key's slot in the map.
pub struct OccupiedEntry<'a, T, const D: usize> {
    map: &'a mut PositionMap<T, D>,
    at: usize,
}

impl<'a, T, const D: usize> OccupiedEntry<'a, T, D> {
    /// The map as this entry found it.
    pub closed spec fn spec_map(self) -> PositionMap<T, D> {
        *self.map
    }

    /// The borrow this entry holds on the map.
    pub closed spec fn spec_map_ref(self) -> &'a mut PositionMap<T, D> {
        self.map
    }

    /// Where the entry's key sits in the map's key order.
    pub closed spec fn spec_at(self) -> int {
        self.at as int
    }

    /// The entry's invariant: a well-formed map and an index inside it.
    pub open spec fn wf(self) -> bool {
        &&& self.spec_map().wf()
        &&& 0 <= self.spec_at() < self.spec_map().spec_keys().len()
    }

    /// The position this entry stands at.
    pub open spec fn spec_position(self) -> Seq<i32> {
        self.spec_map().spec_keys()[self.spec_at()]
    }

    /// The value currently stored at this entry.
    pub open spec fn spec_value(self) -> T {
        self.spec_map().spec_values()[self.spec_at()]
    }

    /// The position this entry stands at.
    pub fn position(&self) -> (r: Vec<i32>)
        requires
            self.wf(),
        ensures
            r@ == self.spec_position(),
    {
        let at = self.at;
        self.map.keys[at].clone()
    }

    /// A borrow of the stored value.
    pub fn value(&self) -> (r: &T)
        requires
            self.wf(),
        ensures
            *r == self.spec_value(),
    {
        let at = self.at;
        &self.map.values[at]
    }

    /// Exclusive access to the stored value; the map afterwards holds
    /// whatever the caller wrote through it.
    pub fn value_mut(self) -> (r: &'a mut T)
        requires
            self.wf(),
        ensures
            *r == self.spec_value(),
            final(self.spec_map_ref()).wf(),
            final(self.spec_map_ref())@ == self.spec_map()@.insert(self.spec_position(), *final(r)),
            final(self.spec_map_ref()).spec_keys() == self.spec_map().spec_keys(),
    {
        let OccupiedEntry { map, at } = self;
        proof {
            self.spec_map().lemma_wf();
        }
        let r = &mut map.values[at];
        proof {
            lemma_map_of_update(
                self.spec_map().spec_keys(),
                self.spec_map().spec_values(),
                self.spec_at(),
                *final(r),
            );
        }
        r
    }

    /// Exclusive access to the stored value, consuming the entry.
    pub fn into_mut_value(self) -> (r: &'a mut T)
        requires
            self.wf(),
        ensures
            *r == self.spec_value(),
            final(self.spec_map_ref()).wf(),
            final(self.spec_map_ref())@ == self.spec_map()@.insert(self.spec_position(), *final(r)),
            final(self.spec_map_ref()).spec_keys() == self.spec_map().spec_keys(),
    {
        self.value_mut()
    }

    /// Stores `value` in the entry's slot, handing back the value it
    /// replaces.
    pub fn insert(self, value: T) -> (r: T)
        requires
            self.wf(),
        ensures
            r == self.spec_value(),
            final(self.spec_map_ref()).wf(),
            final(self.spec_map_ref())@ == self.spec_map()@.insert(self.spec_position(), value),
            final(self.spec_map_ref()).spec_keys() == self.spec_map().spec_keys(),
    {
        let OccupiedEntry { map, at } = self;
        proof {
            lemma_map_of_update(
                self.spec_map().spec_keys(),
                self.spec_map().spec_values(),
                self.spec_at(),
                value,
            );
        }
        let mut prev = value;
        map.values.set_and_swap(at, &mut prev);
        prev
    }

    /// Detaches the entry, handing back its value. The map no longer holds
    /// the entry's position afterwards.
    pub fn remove(self) -> (r: T)
        requires
            self.wf(),
        ensures
            r == self.spec_value(),
            final(self.spec_map_ref()).wf(),
            final(self.spec_map_ref())@ == self.spec_map()@.remove(self.spec_position()),
            final(self.spec_map_ref()).spec_keys() == self.spec_map().spec_keys().remove(
                self.spec_at(),
            ),
    {
        let OccupiedEntry { map, at } = self;
        let ghost kv = self.spec_map().spec_keys();
        let ghost vals = self.spec_map().spec_values();
        proof {
            lemma_map_of_remove(kv, vals, at as int);
        }
        map.keys.remove(at);
        let v = map.values.remove(at);
        proof {
            assert(map.spec_keys() =~= kv.remove(at as int));
            assert(map.spec_values() =~= vals.remove(at as int));
            assert(forall|i: int| 0 <= i < map.keys@.len() ==> #[trigger] map.keys@[i]@.len() == D);
        }
        v
    }

    /// Detaches the entry, handing back its position and value.
    pub fn remove_entry(self) -> (r: (Vec<i32>, T))
        requires
            self.wf(),
        ensures
            r.0@ == self.spec_position(),
            r.1 == self.spec_value(),
            final(self.spec_map_ref()).wf(),
            final(self.spec_map_ref())@ == self.spec_map()@.remove(self.spec_position()),
            final(self.spec_map_ref()).spec_keys() == self.spec_map().spec_keys().remove(
                self.spec_at(),
            ),
    {
        let position = self.position();
        let value = self.remove();
        (position, value)
    }
}

/// An absent entry: the place a key would take in the map.
pub struct VacantEntry<'a, T, const D: usize> {
    map: &'a mut PositionMap<T, D>,
    at: usize,
    position: Vec<i32>,
}

impl<'a, T, const D: usize> VacantEntry<'a, T, D> {
    /// The map as this entry found it.
    pub closed spec fn spec_map(self) -> PositionMap<T, D> {
        *self.map
    }

    /// The borrow this entry holds on the map.
    pub closed spec fn spec_map_ref(self) -> &'a mut PositionMap<T, D> {
        self.map
    }

    /// Where the entry's key would enter the map's key order.
    pub closed spec fn spec_at(self) -> int {
        self.at as int
    }

    /// The position this entry stands for.
    pub closed spec fn spec_position(self) -> Seq<i32> {
        self.position@
    }

    /// The entry's invariant: a well-formed map that does not hold the
    /// position, and the sorted place the position would enter at.
    pub open spec fn wf(self) -> bool {
        &&& self.spec_map().wf()
        &&& self.spec_position().len() == D
        &&& 0 <= self.spec_at() <= self.spec_map().spec_keys().len()
        &&& !self.spec_map()@.dom().contains(self.spec_position())
        &&& forall|j: int|
            0 <= j < self.spec_at() ==> rlex_less(
                #[trigger] self.spec_map().spec_keys()[j],
                self.spec_position(),
            )
        &&& forall|j: int|
            self.spec_at() <= j < self.spec_map().spec_keys().len() ==> rlex_less(
                self.spec_position(),
                #[trigger] self.spec_map().spec_keys()[j],
            )
    }

    /// The position this entry stands for.
    pub fn position(&self) -> (r: Vec<i32>)
        requires
            self.wf(),
        ensures
            r@ == self.spec_position(),
    {
        self.position.clone()
    }

    /// Hands the position back, consuming the entry without inserting.
    pub fn into_key(self) -> (r: Vec<i32>)
        requires
            self.wf(),
        ensures
            r@ == self.spec_position(),
            *final(self.spec_map_ref()) == self.spec_map(),
    {
        self.position
    }

    /// Inserts `value` at the entry's position, with exclusive access to the
    /// stored value; the position enters at its sorted place.
    pub fn insert(self, value: T) -> (r: &'a mut T)
        requires
            self.wf(),
        ensures
            *r == value,
            final(self.spec_map_ref()).wf(),
            final(self.spec_map_ref())@ == self.spec_map()@.insert(self.spec_position(), *final(r)),
            final(self.spec_map_ref()).spec_keys() == self.spec_map().spec_keys().insert(
                self.spec_at(),
                self.spec_position(),
            ),
    {
        let VacantEntry { map, at, position } = self;
        let ghost kv = self.spec_map().spec_keys();
        let ghost vals = self.spec_map().spec_values();
        let ghost old_keys = map.keys@;
        proof {
            lemma_map_of_insert(kv, vals, at as int, position@, value);
        }
        map.keys.insert(at, position);
        map.values.insert(at, value);
        proof {
            old_keys.insert_ensures(at as int, position);
            kv.insert_ensures(at as int, position@);
            vals.insert_ensures(at as int, value);
            assert(map.spec_keys() =~= kv.insert(at as int, position@));
            assert(map.spec_values() =~= vals.insert(at as int, value));
            assert(forall|i: int| 0 <= i < map.keys@.len() ==> #[trigger] map.keys@[i]@.len() == D);
        }
        let r = &mut map.values[at];
        proof {
            lemma_map_of_update(
                kv.insert(at as int, position@),
                vals.insert(at as int, value),
                at as int,
                *final(r),
            );
            assert(map_of(kv, vals).insert(position@, value).insert(position@, *final(r))
                =~= map_of(kv, vals).insert(position@, *final(r)));
        }
        r
    }
}

/// A position's slot in the map: occupied or vacant.
pub enum Entry<'a, T, const D: usize> {
    Vacant(VacantEntry<'a, T, D>),
    Occupied(OccupiedEntry<'a, T, D>),
}

impl<'a, T, const D: usize> Entry<'a, T, D> {
    /// The map as this entry found it.
    pub open spec fn spec_map(self) -> PositionMap<T, D> {
        match self {
            Entry::Vacant(e) => e.spec_map(),
            Entry::Occupied(e) => e.spec_map(),
        }
    }

    /// The borrow this entry holds on the map.
    pub open spec fn spec_map_ref(self) -> &'a mut PositionMap<T, D> {
        match self {
            Entry::Vacant(e) => e.spec_map_ref(),
            Entry::Occupied(e) => e.spec_map_ref(),
        }
    }

    /// The position this entry stands for.
    pub open spec fn spec_position(self) -> Seq<i32> {
        match self {
            Entry::Vacant(e) => e.spec_position(),
            Entry::Occupied(e) => e.spec_position(),
        }
    }

    /// The entry's invariant.
    pub open spec fn wf(self) -> bool {
        match self {
            Entry::Vacant(e) => e.wf(),
            Entry::Occupied(e) => e.wf(),
        }
    }

    /// The position this entry stands for.
    pub fn position(&self) -> (r: Vec<i32>)
        requires
            self.wf(),
        ensures
            r@ == self.spec_position(),
    {
        match self {
            Entry::Vacant(e) => e.position(),
            Entry::Occupied(e) => e.position(),
        }
    }

    /// Exclusive access to the value at the entry's position, when there is
    /// one; a vacant entry leaves the map untouched.
    pub fn value_mut(self) -> (r: Option<&'a mut T>)
        requires
            self.wf(),
        ensures
            r is Some ==> self is Occupied && *r.unwrap() == self.spec_map()@[self.spec_position()]
                && final(self.spec_map_ref()).wf() && final(self.spec_map_ref())@ == self.spec_map()@.insert(
                self.spec_position(),
                *final(r.unwrap()),
            ) && final(self.spec_map_ref()).spec_keys() == self.spec_map().spec_keys(),
            r is None ==> self is Vacant && *final(self.spec_map_ref()) == self.spec_map(),
    {
        match self {
            Entry::Vacant(e) => {
                let ghost m = e.spec_map();
                let k = e.into_key();
                None
            },
            Entry::Occupied(e) => {
                proof {
                    e.spec_map().lemma_wf();
                }
                Some(e.value_mut())
            },
        }
    }

    /// The value at the entry's position, after storing `default` there if
    /// the position was vacant.
    pub fn or_insert(self, default: T) -> (r: &'a mut T)
        requires
            self.wf(),
        ensures
            *r == (match self {
                Entry::Occupied(e) => e.spec_value(),
                Entry::Vacant(_) => default,
            }),
            final(self.spec_map_ref()).wf(),
            final(self.spec_map_ref())@ == self.spec_map()@.insert(
                self.spec_position(),
                *final(r),
            ),
    {
        match self {
            Entry::Vacant(e) => e.insert(default),
            Entry::Occupied(e) => e.value_mut(),
        }
    }

    /// The value at the entry's position, after storing the closure's result
    /// there if the position was vacant; the closure runs only then.
    pub fn or_insert_with<F: FnOnce() -> T>(self, default: F) -> (r: &'a mut T)
        requires
            self.wf(),
            self is Vacant ==> call_requires(default, ()),
        ensures
            match self {
                Entry::Occupied(e) => *r == e.spec_value(),
                Entry::Vacant(_) => call_ensures(default, (), *r),
            },
            final(self.spec_map_ref()).wf(),
            final(self.spec_map_ref())@ == self.spec_map()@.insert(
                self.spec_position(),
                *final(r),
            ),
    {
        match self {
            Entry::Vacant(e) => e.insert(default()),
            Entry::Occupied(e) => e.value_mut(),
        }
    }

    /// Like `or_insert_with`, handing the vacant position to the closure.
    pub fn or_insert_with_key<F: FnOnce(Vec<i32>) -> T>(self, default: F) -> (r: &'a mut T)
        requires
            self.wf(),
            self is Vacant ==> forall|k: Vec<i32>|
                k@ == self.spec_position() ==> call_requires(default, (k,)),
        ensures
            match self {
                Entry::Occupied(e) => *r == e.spec_value(),
                Entry::Vacant(_) => exists|k: Vec<i32>|
                    k@ == self.spec_position() && call_ensures(default, (k,), *r),
            },
            final(self.spec_map_ref()).wf(),
            final(self.spec_map_ref())@ == self.spec_map()@.insert(
                self.spec_position(),
                *final(r),
            ),
    {
        match self {
            Entry::Vacant(e) => {
                let k = e.position();
                e.insert(default(k))
            },
            Entry::Occupied(e) => e.value_mut(),
        }
    }

    /// The value at the entry's position, after storing `T`'s default there
    /// if the position was vacant.
    pub fn or_default(self) -> (r: &'a mut T) where T: Default
        requires
            self.wf(),
        ensures
            match self {
                Entry::Occupied(e) => *r == e.spec_value(),
                Entry::Vacant(_) => true,
            },
            final(self.spec_map_ref()).wf(),
            final(self.spec_map_ref())@ == self.spec_map()@.insert(
                self.spec_position(),
                *final(r),
            ),
    {
        match self {
            Entry::Vacant(e) => e.insert(T::default()),
            Entry::Occupied(e) => e.value_mut(),
        }
    }
}

} // verus!
