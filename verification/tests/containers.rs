use core::cmp::Ordering;
use gridworld::buffer::Buffer;
use gridworld::buffer::WithPayload;
use gridworld::dynamic::DynamicChunk;
use gridworld::ordering::rlex_compare;
use gridworld::ordering::OrderedPoint;
use gridworld::position_map::Entry;
use gridworld::position_map::PositionMap;
use gridworld::positions::OffsetPositions;
use gridworld::positions::Positions;
use gridworld::shape::Multiform;
use gridworld::shape::Uniform;
use gridworld::storage::ContiguousMemory;
use gridworld::storage::FromFn;
use gridworld::storage::ReadStorage;
use gridworld::storage::Storage;
use gridworld::utils::Range;

#[test]
fn position_map_insert_get_remove() {
    let mut map: PositionMap<u32, 2> = PositionMap::new();
    assert_eq!(map.len(), 0);
    assert_eq!(map.insert(vec![0, 0], 10), None);
    assert_eq!(map.insert(vec![1, -1], 20), None);
    assert_eq!(map.insert(vec![-1, 1], 30), None);
    assert_eq!(map.len(), 3);
    assert_eq!(map.insert(vec![0, 0], 11), Some(10));
    assert_eq!(map.len(), 3);
    assert_eq!(map.get(&vec![0, 0]), Some(&11));
    assert_eq!(map.get(&vec![1, -1]), Some(&20));
    assert_eq!(map.get(&vec![2, 2]), None);
    assert_eq!(map.remove(&vec![1, -1]), Some(20));
    assert_eq!(map.remove(&vec![1, -1]), None);
    assert_eq!(map.len(), 2);
}

#[test]
fn position_map_iterates_in_reverse_lexicographic_order() {
    let mut map: PositionMap<u32, 2> = PositionMap::new();
    map.insert(vec![-1, 1], 1);
    map.insert(vec![0, 0], 2);
    map.insert(vec![1, -1], 3);
    let positions = map.positions();
    assert_eq!(*positions, vec![vec![1, -1], vec![0, 0], vec![-1, 1]]);
    let (keys, values) = map.iter();
    assert_eq!(keys.len(), 3);
    assert_eq!(*values, vec![3, 2, 1]);
}

#[test]
fn position_map_get_mut_writes_through() {
    let mut map: PositionMap<u32, 1> = PositionMap::new();
    map.insert(vec![4], 7);
    if let Some(v) = map.get_mut(&vec![4]) {
        *v = 9;
    }
    assert_eq!(map.get(&vec![4]), Some(&9));
    assert!(map.get_mut(&vec![5]).is_none());
}

#[test]
fn position_map_entry_inserts_lazily() {
    let mut map: PositionMap<u32, 1> = PositionMap::new();
    {
        let slot = map.entry(vec![3]).or_insert(5);
        *slot = 6;
    }
    assert_eq!(map.get(&vec![3]), Some(&6));
    assert_eq!(*map.entry(vec![3]).or_insert(7), 6);
    assert_eq!(*map.entry(vec![8]).or_insert_with(|| 40), 40);
    assert_eq!(
        *map.entry(vec![9]).or_insert_with_key(|k| (k[0] as u32) * 2),
        18
    );
    assert_eq!(*map.entry(vec![10]).or_default(), 0);
    match map.entry(vec![3]) {
        Entry::Occupied(e) => {
            assert_eq!(e.position(), vec![3]);
            assert_eq!(*e.value(), 6);
            let (position, value) = e.remove_entry();
            assert_eq!(position, vec![3]);
            assert_eq!(value, 6);
        },
        Entry::Vacant(_) => panic!("expected an occupied entry"),
    }
    assert_eq!(map.get(&vec![3]), None);
    match map.entry(vec![11]) {
        Entry::Occupied(_) => panic!("expected a vacant entry"),
        Entry::Vacant(e) => {
            assert_eq!(e.into_key(), vec![11]);
        },
    }
    assert_eq!(map.get(&vec![11]), None);
}

#[test]
fn rlex_compare_decides_by_the_last_axis_first() {
    assert_eq!(rlex_compare(&vec![9, 0], &vec![0, 1]), Ordering::Less);
    assert_eq!(rlex_compare(&vec![0, 1], &vec![1, 0]), Ordering::Greater);
    assert_eq!(rlex_compare(&vec![2, 5], &vec![2, 5]), Ordering::Equal);
    assert_eq!(rlex_compare(&vec![1, 5], &vec![2, 5]), Ordering::Less);
}

#[test]
fn ordered_point_comparator() {
    let a = OrderedPoint::<2>::new(vec![1, -1]);
    let b = OrderedPoint::<2>::new(vec![0, 0]);
    let c = OrderedPoint::<2>::new(vec![-1, 1]);
    assert_eq!(a.partial_cmp(&b), Some(Ordering::Less));
    assert_eq!(b.partial_cmp(&c), Some(Ordering::Less));
    assert_eq!(c.partial_cmp(&a), Some(Ordering::Greater));
    assert!(a == OrderedPoint::<2>::new(vec![1, -1]));
    assert!(a != b);
}

#[test]
fn buffer_couples_a_shape_with_its_storage() {
    let shape: Multiform<2> = Multiform::new(vec![2, 3]);
    let chunk: Buffer<Vec<u8>, Multiform<2>, 2> = Buffer::from_parts(shape, vec![0, 1, 2, 3, 4, 5]);
    assert_eq!(chunk.iter(), &[0, 1, 2, 3, 4, 5]);
    assert_eq!(chunk.get(&vec![1, 2]), Some(&5));
    assert_eq!(chunk.get(&vec![2, 0]), None);
    assert_eq!(chunk.block(&vec![0, 1]), Some(&2));
    let (positions, items) = chunk.block_positions();
    assert_eq!(positions.len(), items.len());
    assert_eq!(positions[0], vec![0, 0]);
    assert_eq!(positions[3], vec![1, 1]);
    assert_eq!(*items, [0, 1, 2, 3, 4, 5]);
}

#[test]
fn buffer_replace_hands_back_what_it_displaces() {
    let shape: Uniform<2> = Uniform::new(2);
    let mut chunk: Buffer<Vec<bool>, Uniform<2>, 2> = Buffer::from_shape_default(shape);
    assert_eq!(chunk.replace(&vec![1, 1], true), Ok(false));
    assert_eq!(chunk.get(&vec![1, 1]), Some(&true));
    assert_eq!(chunk.replace(&vec![2, 0], true), Err(true));
    if let Some(slot) = chunk.get_mut(&vec![0, 0]) {
        *slot = true;
    }
    assert_eq!(chunk.iter(), &[true, false, false, true]);
}

#[test]
fn buffer_generators_run_in_index_order() {
    let shape: Multiform<2> = Multiform::new(vec![3, 2]);
    let by_index: Buffer<Vec<usize>, Multiform<2>, 2> =
        Buffer::from_shape_index(shape.clone(), |i| i * 10);
    assert_eq!(by_index.iter(), &[0, 10, 20, 30, 40, 50]);
    let by_position: Buffer<Vec<i32>, Multiform<2>, 2> =
        Buffer::from_shape_position(shape, |p| p[0] + 10 * p[1]);
    assert_eq!(by_position.iter(), &[0, 1, 2, 10, 11, 12]);
}

#[test]
fn storage_reads_and_builds_by_index() {
    let buffer: Vec<u16> = FromFn::from_fn(4, |i| (i as u16) + 1);
    assert_eq!(buffer, vec![1, 2, 3, 4]);
    assert_eq!(buffer.length(), 4);
    assert_eq!(buffer.read(2), Some(3));
    assert_eq!(buffer.read(4), None);
    assert_eq!(ContiguousMemory::as_slice(&buffer), &[1, 2, 3, 4]);
}

#[test]
fn positions_enumerate_every_position_once() {
    let mut positions: Positions<2> = Positions::new(vec![2, 2]);
    assert_eq!(positions.extents(), vec![2, 2]);
    assert_eq!(positions.next(), Some(vec![0, 0]));
    assert_eq!(positions.next(), Some(vec![1, 0]));
    assert_eq!(positions.next(), Some(vec![0, 1]));
    assert_eq!(positions.next(), Some(vec![1, 1]));
    assert_eq!(positions.next(), None);
    assert_eq!(positions.next(), None);
    let mut fresh: Positions<2> = Positions::new(vec![2, 2]);
    assert_eq!(fresh.next(), Some(vec![0, 0]));
}

#[test]
fn offset_positions_shift_every_yielded_position() {
    let mut positions: OffsetPositions<2> = OffsetPositions::new(vec![2, 2], vec![-1, 5]);
    assert_eq!(positions.extents(), vec![2, 2]);
    assert_eq!(*positions.offset(), vec![-1, 5]);
    assert_eq!(positions.next(), Some(vec![-1, 5]));
    assert_eq!(positions.next(), Some(vec![0, 5]));
    assert_eq!(positions.next(), Some(vec![-1, 6]));
    assert_eq!(positions.next(), Some(vec![0, 6]));
    assert_eq!(positions.next(), None);
}

#[test]
fn range_counts_up_to_its_bound() {
    let mut range: Range<3> = Range::new(0);
    assert_eq!(range.end(), 3);
    assert_eq!(range.next(), Some(0));
    assert_eq!(range.next(), Some(1));
    assert_eq!(range.next(), Some(2));
    assert_eq!(range.next(), None);
}

#[test]
fn dynamic_chunk_starts_with_defaults() {
    let chunk: DynamicChunk<u8, 2> = DynamicChunk::new(vec![2, 2]);
    assert_eq!(chunk.index(0), Some(&0));
    assert_eq!(chunk.index(3), Some(&0));
    assert_eq!(chunk.index(4), None);
}

#[test]
fn dynamic_chunk_position_access() {
    let mut chunk: DynamicChunk<u8, 2> = DynamicChunk::new(vec![2, 3]);
    if let Some(slot) = chunk.get_mut(&vec![1, 2]) {
        *slot = 9;
    }
    assert_eq!(chunk.get(&vec![1, 2]), Some(&9));
    assert_eq!(chunk.get(&vec![2, 0]), None);
    assert!(chunk.get_mut(&vec![0, 3]).is_none());
}

#[test]
fn with_payload_couples_chunk_and_payload() {
    let shape: Uniform<1> = Uniform::new(2);
    let chunk: Buffer<Vec<u8>, Uniform<1>, 1> = Buffer::from_shape_default(shape);
    let tagged = WithPayload::new(chunk, 7u32);
    assert_eq!(tagged.payload, 7);
    assert_eq!(tagged.chunk.iter(), &[0, 0]);
}

#[test]
fn item_positions_walk_pairs_in_storage_order() {
    let shape: Multiform<2> = Multiform::new(vec![2, 2]);
    let chunk: Buffer<Vec<u8>, Multiform<2>, 2> = Buffer::from_shape_index(shape, |i| i as u8);
    let mut pairs = chunk.item_positions();
    assert_eq!(pairs.next(), Some((vec![0, 0], &0)));
    assert_eq!(pairs.next(), Some((vec![1, 0], &1)));
    assert_eq!(pairs.next(), Some((vec![0, 1], &2)));
    assert_eq!(pairs.next(), Some((vec![1, 1], &3)));
    assert_eq!(pairs.next(), None);
    let mut fresh = chunk.item_positions();
    assert_eq!(fresh.next(), Some((vec![0, 0], &0)));
}
