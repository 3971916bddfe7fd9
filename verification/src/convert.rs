//! Conversion between N-dimensional positions and flat storage indices.
//!
//! A hyperrectangle is described by its per-axis `extents`. A position is
//! mapped to an index by mixed-radix encoding: axis 0 varies fastest, and
//! axis `i` is weighted by the product of all extents before it.

use vstd::arithmetic::div_mod::lemma_fundamental_div_mod;
use vstd::arithmetic::div_mod::lemma_fundamental_div_mod_converse;
use vstd::prelude::*;

verus! {

/// The number of valid positions inside `extents`: the product of all axes.
pub open spec fn product_of(extents: Seq<usize>) -> nat
    decreases extents.len(),
{
    if extents.len() == 0 {
        1
    } else {
        (extents[0] * product_of(extents.skip(1))) as nat
    }
}

/// Extents a shape may carry: every axis is at least 1 and narrow enough for
/// an `i32` coordinate, and the capacity fits in `usize`.
pub open spec fn extents_ok(extents: Seq<usize>) -> bool {
    &&& forall|i: int| 0 <= i < extents.len() ==> 1 <= #[trigger] extents[i] <= i32::MAX
    &&& product_of(extents) <= usize::MAX
}

/// A position is valid for `extents` when it has one coordinate per axis and
/// every coordinate lies inside `[0, extent)`.
pub open spec fn valid_position(extents: Seq<usize>, position: Seq<i32>) -> bool {
    &&& position.len() == extents.len()
    &&& forall|i: int| 0 <= i < position.len() ==> 0 <= #[trigger] position[i] < extents[i]
}

/// The mixed-radix index of `position`: coordinate 0 plus extent-0 times the
/// index of the remaining axes.
pub open spec fn index_of(extents: Seq<usize>, position: Seq<i32>) -> int
    decreases extents.len(),
{
    if extents.len() == 0 {
        0
    } else {
        position[0] + extents[0] * index_of(extents.skip(1), position.skip(1))
    }
}

/// The position whose mixed-radix index is `index`: digit by digit, the
/// remainder under extent 0 followed by the digits of the quotient.
pub open spec fn position_of(extents: Seq<usize>, index: int) -> Seq<i32>
    decreases extents.len(),
{
    if extents.len() == 0 {
        Seq::empty()
    } else {
        seq![(index % (extents[0] as int)) as i32] + position_of(
            extents.skip(1),
            index / (extents[0] as int),
        )
    }
}

proof fn lemma_product_push(extents: Seq<usize>, extent: usize)
    ensures
        product_of(extents.push(extent)) == product_of(extents) * extent,
    decreases extents.len(),
{
    if extents.len() == 0 {
        assert(extents.push(extent) =~= seq![extent]);
        assert(seq![extent].skip(1) =~= Seq::<usize>::empty());
        assert(product_of(Seq::<usize>::empty()) == 1);
        assert(product_of(seq![extent]) == extent * product_of(Seq::<usize>::empty()));
        assert(product_of(extents) == 1);
        assert(product_of(extents.push(extent)) == product_of(extents) * extent);
    } else {
        assert(extents.push(extent).skip(1) =~= extents.skip(1).push(extent));
        lemma_product_push(extents.skip(1), extent);
        let e0 = extents[0] as int;
        let p = product_of(extents.skip(1)) as int;
        assert(product_of(extents.push(extent)) == e0 * product_of(extents.skip(1).push(extent)));
        assert(product_of(extents.skip(1).push(extent)) == p * extent);
        assert(e0 * (p * extent) == (e0 * p) * extent) by (nonlinear_arith);
        assert(product_of(extents) == e0 * p);
        assert(product_of(extents.push(extent)) == product_of(extents) * extent);
    }
}

proof fn lemma_product_at_least_one(extents: Seq<usize>)
    requires
        forall|i: int| 0 <= i < extents.len() ==> 1 <= #[trigger] extents[i],
    ensures
        product_of(extents) >= 1,
    decreases extents.len(),
{
    if extents.len() > 0 {
        assert(forall|i: int|
            0 <= i < extents.skip(1).len() ==> 1 <= #[trigger] extents.skip(1)[i]);
        lemma_product_at_least_one(extents.skip(1));
        assert(extents[0] * product_of(extents.skip(1)) >= 1 * 1) by (nonlinear_arith)
            requires
                extents[0] >= 1,
                product_of(extents.skip(1)) >= 1,
        ;
    }
}

proof fn lemma_product_split(extents: Seq<usize>, k: int)
    requires
        0 <= k <= extents.len(),
    ensures
        product_of(extents) == product_of(extents.take(k)) * product_of(extents.skip(k)),
    decreases k,
{
    if k == 0 {
        assert(extents.take(0) =~= Seq::<usize>::empty());
        assert(extents.skip(0) =~= extents);
        assert(product_of(extents.take(0)) == 1);
        assert(product_of(extents) == product_of(extents.take(k)) * product_of(extents.skip(k)));
    } else {
        assert(extents.take(k).skip(1) =~= extents.skip(1).take(k - 1));
        assert(extents.skip(k) =~= extents.skip(1).skip(k - 1));
        lemma_product_split(extents.skip(1), k - 1);
        let e0 = extents[0] as int;
        let a = product_of(extents.skip(1).take(k - 1)) as int;
        let b = product_of(extents.skip(1).skip(k - 1)) as int;
        assert(product_of(extents) == e0 * product_of(extents.skip(1)));
        assert(product_of(extents.skip(1)) == a * b);
        assert(e0 * (a * b) == (e0 * a) * b) by (nonlinear_arith);
        assert(extents.take(k)[0] == extents[0]);
        assert(product_of(extents.take(k)) == e0 * a);
        assert(product_of(extents) == product_of(extents.take(k)) * b);
        assert(product_of(extents) == product_of(extents.take(k)) * product_of(extents.skip(k)));
    }
}

/// Every run of axes multiplies out to no more than the whole capacity.
proof fn lemma_product_skip_le(extents: Seq<usize>, k: int)
    requires
        0 <= k <= extents.len(),
        forall|i: int| 0 <= i < extents.len() ==> 1 <= #[trigger] extents[i],
    ensures
        product_of(extents.skip(k)) <= product_of(extents),
        product_of(extents.take(k)) <= product_of(extents),
{
    lemma_product_split(extents, k);
    assert(forall|i: int| 0 <= i < extents.take(k).len() ==> 1 <= #[trigger] extents.take(k)[i]);
    assert(forall|i: int| 0 <= i < extents.skip(k).len() ==> 1 <= #[trigger] extents.skip(k)[i]);
    lemma_product_at_least_one(extents.take(k));
    lemma_product_at_least_one(extents.skip(k));
    assert(product_of(extents.take(k)) * product_of(extents.skip(k)) >= product_of(extents.skip(k))
        && product_of(extents.take(k)) * product_of(extents.skip(k)) >= product_of(
        extents.take(k),
    )) by (nonlinear_arith)
        requires
            product_of(extents.take(k)) >= 1,
            product_of(extents.skip(k)) >= 1,
    ;
}

/// The capacity of a shape with the given extents: the number of valid
/// positions, which is also the number of valid indices.
pub fn capacity(extents: &Vec<usize>) -> (r: usize)
    requires
        extents_ok(extents@),
    ensures
        r == product_of(extents@),
{
    let mut acc: usize = 1;
    let mut i: usize = 0;
    proof {
        assert(extents@.take(0) =~= Seq::<usize>::empty());
    }
    while i < extents.len()
        invariant
            extents_ok(extents@),
            0 <= i <= extents.len(),
            acc == product_of(extents@.take(i as int)),
        decreases extents.len() - i,
    {
        proof {
            lemma_product_push(extents@.take(i as int), extents@[i as int]);
            assert(extents@.take(i + 1) =~= extents@.take(i as int).push(extents@[i as int]));
            lemma_product_skip_le(extents@, i + 1);
        }
        acc = acc * extents[i];
        i = i + 1;
    }
    proof {
        assert(extents@.take(extents@.len() as int) =~= extents@);
    }
    acc
}

/// A valid position's index lies inside `[0, capacity)`.
pub proof fn lemma_index_of_bounds(extents: Seq<usize>, position: Seq<i32>)
    requires
        valid_position(extents, position),
    ensures
        0 <= index_of(extents, position) < product_of(extents),
    decreases extents.len(),
{
    if extents.len() == 0 {
    } else {
        assert(valid_position(extents.skip(1), position.skip(1))) by {
            assert(forall|i: int|
                0 <= i < position.skip(1).len() ==> 0 <= #[trigger] position.skip(1)[i]
                    < extents.skip(1)[i]) by {
                assert(forall|i: int|
                    0 <= i < position.skip(1).len() ==> position.skip(1)[i] == position[i + 1]
                        && extents.skip(1)[i] == extents[i + 1]);
            }
        }
        lemma_index_of_bounds(extents.skip(1), position.skip(1));
        let e0 = extents[0] as int;
        let p0 = position[0] as int;
        let rest = index_of(extents.skip(1), position.skip(1));
        let prod = product_of(extents.skip(1)) as int;
        assert(0 <= p0 + e0 * rest < e0 * prod) by (nonlinear_arith)
            requires
                0 <= p0 < e0,
                0 <= rest < prod,
        ;
        assert(index_of(extents, position) == p0 + e0 * rest);
        assert(product_of(extents) == e0 * prod);
    }
}

/// Law: converting a valid index to a position gives a valid position, and
/// converting that position back gives the same index.
pub proof fn lemma_round_trip_from_index(extents: Seq<usize>, index: int)
    requires
        forall|i: int| 0 <= i < extents.len() ==> 1 <= #[trigger] extents[i] <= i32::MAX,
        0 <= index < product_of(extents),
    ensures
        valid_position(extents, position_of(extents, index)),
        index_of(extents, position_of(extents, index)) == index,
    decreases extents.len(),
{
    if extents.len() == 0 {
        assert(position_of(extents, index) =~= Seq::<i32>::empty());
    } else {
        let e0 = extents[0] as int;
        let d = index % e0;
        let q = index / e0;
        lemma_fundamental_div_mod(index, e0);
        let prod = product_of(extents.skip(1)) as int;
        assert(product_of(extents) == e0 * prod);
        assert(0 <= q < prod) by (nonlinear_arith)
            requires
                index == q * e0 + d,
                0 <= d < e0,
                0 <= index < e0 * prod,
                0 < e0,
        ;
        lemma_round_trip_from_index(extents.skip(1), q);
        let head = seq![(d as i32)];
        let tail = position_of(extents.skip(1), q);
        assert(position_of(extents, index) == head + tail);
        assert((head + tail).skip(1) =~= tail);
        assert((head + tail)[0] == d as i32);
        assert(valid_position(extents, head + tail)) by {
            assert(forall|i: int|
                1 <= i < (head + tail).len() ==> (head + tail)[i] == tail[i - 1] && extents[i]
                    == extents.skip(1)[i - 1]);
        }
        assert(index_of(extents, head + tail) == d + e0 * q);
    }
}

/// Law: converting a valid position to its index and back gives the same
/// position.
pub proof fn lemma_round_trip_from_position(extents: Seq<usize>, position: Seq<i32>)
    requires
        forall|i: int| 0 <= i < extents.len() ==> #[trigger] extents[i] <= i32::MAX,
        valid_position(extents, position),
    ensures
        position_of(extents, index_of(extents, position)) == position,
    decreases extents.len(),
{
    if extents.len() == 0 {
        assert(position_of(extents, index_of(extents, position)) =~= position);
    } else {
        assert(valid_position(extents.skip(1), position.skip(1))) by {
            assert(forall|i: int|
                0 <= i < position.skip(1).len() ==> position.skip(1)[i] == position[i + 1]
                    && extents.skip(1)[i] == extents[i + 1]);
        }
        lemma_index_of_bounds(extents.skip(1), position.skip(1));
        lemma_round_trip_from_position(extents.skip(1), position.skip(1));
        let e0 = extents[0] as int;
        let p0 = position[0] as int;
        let rest = index_of(extents.skip(1), position.skip(1));
        let index = index_of(extents, position);
        assert(index == p0 + e0 * rest);
        assert(index == rest * e0 + p0) by (nonlinear_arith)
            requires
                index == p0 + e0 * rest,
        ;
        lemma_fundamental_div_mod_converse(index, e0, rest, p0);
        assert(position_of(extents, index) == seq![(p0 as i32)] + position_of(
            extents.skip(1),
            rest,
        ));
        assert(position_of(extents, index) =~= position);
    }
}

/// Converts a position to its flat index inside `extents`.
///
/// Returns `None` exactly when some coordinate is negative or at least its
/// axis's extent; on success the index is the mixed-radix encoding of the
/// position and lies below the capacity.
pub fn position_to_index(extents: &Vec<usize>, position: &Vec<i32>) -> (r: Option<usize>)
    requires
        extents_ok(extents@),
        position@.len() == extents@.len(),
    ensures
        match r {
            Some(index) => valid_position(extents@, position@) && index == index_of(
                extents@,
                position@,
            ) && index < product_of(extents@),
            None => !valid_position(extents@, position@),
        },
{
    let n = extents.len();
    let mut acc: usize = 0;
    let mut i: usize = n;
    proof {
        assert(extents@.skip(n as int) =~= Seq::<usize>::empty());
        assert(position@.skip(n as int) =~= Seq::<i32>::empty());
    }
    while i > 0
        invariant
            extents_ok(extents@),
            position@.len() == extents@.len(),
            n == extents@.len(),
            i <= n,
            forall|j: int| i <= j < n ==> 0 <= #[trigger] position@[j] < extents@[j],
            acc == index_of(extents@.skip(i as int), position@.skip(i as int)),
            acc < product_of(extents@.skip(i as int)),
        decreases i,
    {
        let j = i - 1;
        let c = position[j];
        let e = extents[j];
        if c < 0 || c as usize >= e {
            return None;
        }
        proof {
            assert(extents@.skip(j as int).skip(1) =~= extents@.skip(i as int));
            assert(position@.skip(j as int).skip(1) =~= position@.skip(i as int));
            assert(extents@.skip(j as int)[0] == e);
            assert(position@.skip(j as int)[0] == c);
            let prod = product_of(extents@.skip(i as int)) as int;
            assert(product_of(extents@.skip(j as int)) == e * prod);
            assert(c + e * acc < e * prod) by (nonlinear_arith)
                requires
                    0 <= c < e,
                    0 <= acc < prod,
            ;
            lemma_product_skip_le(extents@, j as int);
        }
        acc = c as usize + e * acc;
        i = j;
    }
    proof {
        assert(extents@.skip(0) =~= extents@);
        assert(position@.skip(0) =~= position@);
        lemma_product_skip_le(extents@, 0);
    }
    Some(acc)
}

/// Converts a flat index back to the position it encodes inside `extents`.
///
/// Returns `None` exactly when the index is at least the capacity; on
/// success the position is valid and converts back to the same index.
pub fn index_to_position(extents: &Vec<usize>, index: usize) -> (r: Option<Vec<i32>>)
    requires
        extents_ok(extents@),
    ensures
        match r {
            Some(position) => index < product_of(extents@) && position@ == position_of(
                extents@,
                index as int,
            ) && valid_position(extents@, position@) && index_of(extents@, position@) == index,
            None => index >= product_of(extents@),
        },
{
    let cap = capacity(extents);
    if index >= cap {
        return None;
    }
    let n = extents.len();
    let mut out: Vec<i32> = Vec::new();
    let mut cur: usize = index;
    let mut i: usize = 0;
    proof {
        assert(extents@.skip(0) =~= extents@);
        assert(out@ + position_of(extents@, index as int) =~= position_of(
            extents@,
            index as int,
        ));
    }
    while i < n
        invariant
            extents_ok(extents@),
            n == extents@.len(),
            i <= n,
            out@.len() == i,
            out@ + position_of(extents@.skip(i as int), cur as int) == position_of(
                extents@,
                index as int,
            ),
        decreases n - i,
    {
        let e = extents[i];
        let d = cur % e;
        proof {
            let ghost prev = out@;
            assert(extents@.skip(i as int)[0] == e);
            assert(extents@.skip(i as int).skip(1) =~= extents@.skip(i + 1));
            assert(position_of(extents@.skip(i as int), cur as int) == seq![(d as i32)]
                + position_of(extents@.skip(i + 1), cur as int / e as int));
            assert(prev.push(d as i32) + position_of(extents@.skip(i + 1), cur as int / e as int)
                =~= prev + position_of(extents@.skip(i as int), cur as int));
        }
        out.push(d as i32);
        cur = cur / e;
        i = i + 1;
    }
    proof {
        assert(extents@.skip(n as int) =~= Seq::<usize>::empty());
        assert(out@ + Seq::<i32>::empty() =~= out@);
        lemma_round_trip_from_index(extents@, index as int);
    }
    Some(out)
}

/// Position `position` expressed relative to `offset`, one axis at a time.
pub open spec fn offset_diff(position: Seq<i32>, offset: Seq<i32>) -> Seq<i32> {
    Seq::new(position.len(), |i: int| (position[i] - offset[i]) as i32)
}

/// Whether `position`, taken relative to `offset`, lands inside `extents`.
pub open spec fn valid_offset_position(
    extents: Seq<usize>,
    offset: Seq<i32>,
    position: Seq<i32>,
) -> bool {
    &&& position.len() == extents.len()
    &&& forall|i: int|
        0 <= i < position.len() ==> 0 <= #[trigger] position[i] - offset[i] < extents[i]
}

/// Converts a position to an index relative to a per-axis additive offset:
/// the offset is subtracted before the conversion.
pub fn position_to_index_offset(extents: &Vec<usize>, offset: &Vec<i32>, position: &Vec<i32>) -> (r:
    Option<usize>)
    requires
        extents_ok(extents@),
        offset@.len() == extents@.len(),
        position@.len() == extents@.len(),
    ensures
        match r {
            Some(index) => valid_offset_position(extents@, offset@, position@) && index == index_of(
                extents@,
                offset_diff(position@, offset@),
            ) && index < product_of(extents@),
            None => !valid_offset_position(extents@, offset@, position@),
        },
{
    let n = extents.len();
    let mut shifted: Vec<i32> = Vec::new();
    let mut i: usize = 0;
    while i < n
        invariant
            extents_ok(extents@),
            offset@.len() == extents@.len(),
            position@.len() == extents@.len(),
            n == extents@.len(),
            i <= n,
            shifted@.len() == i,
            forall|j: int|
                0 <= j < i ==> 0 <= #[trigger] position@[j] - offset@[j] < extents@[j]
                    && shifted@[j] == position@[j] - offset@[j],
        decreases n - i,
    {
        let d: i64 = position[i] as i64 - offset[i] as i64;
        if d < 0 || d >= extents[i] as i64 {
            return None;
        }
        shifted.push(d as i32);
        i = i + 1;
    }
    proof {
        assert(shifted@ =~= offset_diff(position@, offset@));
    }
    position_to_index(extents, &shifted)
}

/// Position `position` shifted forward by `offset`, one axis at a time.
pub open spec fn offset_sum(position: Seq<i32>, offset: Seq<i32>) -> Seq<i32> {
    Seq::new(position.len(), |i: int| (position[i] + offset[i]) as i32)
}

/// Converts an index to a position relative to a per-axis additive offset:
/// the offset is added after the conversion.
pub fn index_to_position_offset(extents: &Vec<usize>, offset: &Vec<i32>, index: usize) -> (r:
    Option<Vec<i32>>)
    requires
        extents_ok(extents@),
        offset@.len() == extents@.len(),
        forall|i: int|
            0 <= i < extents@.len() ==> #[trigger] offset@[i] + extents@[i] - 1 <= i32::MAX,
    ensures
        match r {
            Some(position) => index < product_of(extents@) && position@ == offset_sum(
                position_of(extents@, index as int),
                offset@,
            ),
            None => index >= product_of(extents@),
        },
{
    let base = match index_to_position(extents, index) {
        Some(position) => position,
        None => {
            return None;
        },
    };
    let n = extents.len();
    let mut out: Vec<i32> = Vec::new();
    let mut i: usize = 0;
    while i < n
        invariant
            n == extents@.len(),
            base@.len() == n,
            offset@.len() == n,
            valid_position(extents@, base@),
            forall|j: int|
                0 <= j < n ==> #[trigger] offset@[j] + extents@[j] - 1 <= i32::MAX,
            i <= n,
            out@.len() == i,
            forall|j: int| 0 <= j < i ==> #[trigger] out@[j] == base@[j] + offset@[j],
        decreases n - i,
    {
        out.push(base[i] + offset[i]);
        i = i + 1;
    }
    proof {
        assert(out@ =~= offset_sum(base@, offset@));
    }
    Some(out)
}

/// The extents of the axis-aligned region between `start` and `end`.
pub open spec fn range_extents(start: Seq<i32>, end: Seq<i32>) -> Seq<usize> {
    Seq::new(start.len(), |i: int| (end[i] - start[i]) as usize)
}

/// Turns a pair of region corners into per-axis extents.
pub fn unroll_extents_range(start: &Vec<i32>, end: &Vec<i32>) -> (r: Vec<usize>)
    requires
        start@.len() == end@.len(),
        forall|i: int| 0 <= i < start@.len() ==> #[trigger] start@[i] <= end@[i],
        forall|i: int| 0 <= i < start@.len() ==> #[trigger] end@[i] - start@[i] <= usize::MAX,
    ensures
        r@ == range_extents(start@, end@),
{
    let n = start.len();
    let mut out: Vec<usize> = Vec::new();
    let mut i: usize = 0;
    while i < n
        invariant
            n == start@.len(),
            end@.len() == n,
            forall|j: int| 0 <= j < n ==> #[trigger] start@[j] <= end@[j],
            forall|j: int| 0 <= j < n ==> #[trigger] end@[j] - start@[j] <= usize::MAX,
            i <= n,
            out@.len() == i,
            forall|j: int| 0 <= j < i ==> #[trigger] out@[j] == end@[j] - start@[j],
        decreases n - i,
    {
        let d: i64 = end[i] as i64 - start[i] as i64;
        out.push(d as usize);
        i = i + 1;
    }
    proof {
        assert(out@ =~= range_extents(start@, end@));
    }
    out
}

/// Converts a position to an index inside the region between `start` and
/// `end`: coordinates are taken relative to the region's start corner.
pub fn position_to_index_with_range(start: &Vec<i32>, end: &Vec<i32>, position: &Vec<i32>) -> (r:
    Option<usize>)
    requires
        start@.len() == end@.len(),
        position@.len() == start@.len(),
        forall|i: int| 0 <= i < start@.len() ==> #[trigger] start@[i] <= end@[i],
        extents_ok(range_extents(start@, end@)),
    ensures
        match r {
            Some(index) => valid_offset_position(range_extents(start@, end@), start@, position@)
                && index == index_of(
                range_extents(start@, end@),
                offset_diff(position@, start@),
            ),
            None => !valid_offset_position(range_extents(start@, end@), start@, position@),
        },
{
    proof {
        assert forall|i: int| 0 <= i < start@.len() implies #[trigger] end@[i] - start@[i]
            <= i32::MAX by {
            assert(range_extents(start@, end@)[i] == (end@[i] - start@[i]) as usize);
            assert(1 <= range_extents(start@, end@)[i] <= i32::MAX);
        }
    }
    let extents = unroll_extents_range(start, end);
    position_to_index_offset(&extents, start, position)
}

/// Converts an index back to a position inside the region between `start`
/// and `end`: the region's start corner is added back after the conversion.
pub fn index_to_position_with_range(start: &Vec<i32>, end: &Vec<i32>, index: usize) -> (r: Option<
    Vec<i32>,
>)
    requires
        start@.len() == end@.len(),
        forall|i: int| 0 <= i < start@.len() ==> #[trigger] start@[i] <= end@[i],
        extents_ok(range_extents(start@, end@)),
    ensures
        match r {
            Some(position) => index < product_of(range_extents(start@, end@)) && position@
                == offset_sum(position_of(range_extents(start@, end@), index as int), start@),
            None => index >= product_of(range_extents(start@, end@)),
        },
{
    proof {
        assert forall|i: int| 0 <= i < start@.len() implies #[trigger] end@[i] - start@[i]
            <= i32::MAX by {
            assert(range_extents(start@, end@)[i] == (end@[i] - start@[i]) as usize);
            assert(1 <= range_extents(start@, end@)[i] <= i32::MAX);
        }
        assert forall|i: int| 0 <= i < start@.len() implies #[trigger] start@[i] + range_extents(
            start@,
            end@,
        )[i] - 1 <= i32::MAX by {
            assert(range_extents(start@, end@)[i] == (end@[i] - start@[i]) as usize);
        }
    }
    let extents = unroll_extents_range(start, end);
    index_to_position_offset(&extents, start, index)
}

} // verus!
