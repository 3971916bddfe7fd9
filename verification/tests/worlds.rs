use core::cmp::Ordering;
use gridworld::buffer::Buffer;
use gridworld::ordering::rlex_compare;
use gridworld::shape::Uniform;
use gridworld::shape::UniformShape;
use gridworld::uniform;
use gridworld::world::Multiform;

type World2 = Multiform<Vec<u8>, Uniform<2>, 2, 2, 2>;

fn numbered_chunk(first: u8) -> Buffer<Vec<u8>, Uniform<2>, 2> {
    Buffer::from_shape_index(Uniform::new(2), move |i| first + i as u8)
}

#[test]
fn test_get_block_mut_else_default() {
    let mut world: Multiform<Vec<bool>, Uniform<2>, 2, 2, 2> = Multiform::new(Uniform::new(1));
    let resolved = world.world_to_chunk_block(&vec![0, 0]);
    {
        let storage = world.entry(resolved.chunk.clone()).or_default();
        let index = uniform::position_to_index(1, &resolved.block).unwrap();
        storage[index] = true;
    }
    assert_eq!(world.chunk(&vec![0, 0]).unwrap(), &vec![true]);
}

#[test]
fn chunks_iterate_in_reverse_lexicographic_order() {
    let mut world = World2::new(Uniform::new(2));
    world.insert(vec![-1, 1], numbered_chunk(0));
    world.insert(vec![0, 0], numbered_chunk(10));
    world.insert(vec![1, -1], numbered_chunk(20));
    assert_eq!(rlex_compare(&vec![1, -1], &vec![0, 0]), Ordering::Less);
    assert_eq!(rlex_compare(&vec![0, 0], &vec![-1, 1]), Ordering::Less);
    assert_eq!(
        *world.positions(),
        vec![vec![1, -1], vec![0, 0], vec![-1, 1]]
    );
    let chunks = world.chunks();
    assert_eq!(chunks[0][0], 20);
    assert_eq!(chunks[1][0], 10);
    assert_eq!(chunks[2][0], 0);
    let (positions, storages) = world.iter();
    assert_eq!(positions.len(), 3);
    assert_eq!(storages.len(), 3);
}

#[test]
fn removing_an_absent_chunk_changes_nothing() {
    let mut world = World2::new(Uniform::new(2));
    world.insert(vec![0, 0], numbered_chunk(1));
    world.insert(vec![3, 4], numbered_chunk(5));
    let before = world.positions().clone();
    let length = world.len();
    assert_eq!(world.remove(&vec![7, 7]), None);
    assert_eq!(world.len(), length);
    assert_eq!(*world.positions(), before);
    assert_eq!(world.remove(&vec![3, 4]), Some(vec![5, 6, 7, 8]));
    assert_eq!(world.len(), length - 1);
    assert_eq!(world.chunk(&vec![3, 4]), None);
}

#[test]
fn insert_replaces_and_returns_the_old_chunk() {
    let mut world = World2::new(Uniform::new(2));
    assert_eq!(world.insert(vec![0, 0], numbered_chunk(1)), None);
    assert_eq!(
        world.insert(vec![0, 0], numbered_chunk(9)),
        Some(vec![1, 2, 3, 4])
    );
    assert_eq!(world.chunk(&vec![0, 0]), Some(&vec![9, 10, 11, 12]));
    assert_eq!(world.len(), 1);
}

#[test]
fn blocks_resolve_across_the_chunk_boundary() {
    let mut world = World2::new(Uniform::new(2));
    world.insert(vec![-1, -1], numbered_chunk(0));
    assert_eq!(world.block(&vec![-1, -1], &vec![1, 1]), Some(&3));
    assert_eq!(world.block(&vec![0, 0], &vec![1, 1]), None);
    assert_eq!(world.block(&vec![-1, -1], &vec![2, 0]), None);
    assert_eq!(world.get_block(&vec![-1, -1]), Some(&3));
    assert_eq!(world.get_block(&vec![-2, -2]), Some(&0));
    assert_eq!(world.get_block(&vec![0, 0]), None);
}

#[test]
fn block_mut_writes_into_the_stored_chunk() {
    let mut world = World2::new(Uniform::new(2));
    world.insert(vec![0, 0], numbered_chunk(0));
    if let Some(slot) = world.block_mut(&vec![0, 0], &vec![1, 0]) {
        *slot = 77;
    }
    assert_eq!(world.get_block(&vec![1, 0]), Some(&77));
    if let Some(slot) = world.get_block_mut(&vec![0, 1]) {
        *slot = 88;
    }
    assert_eq!(world.block(&vec![0, 0], &vec![0, 1]), Some(&88));
    assert!(world.block_mut(&vec![5, 5], &vec![0, 0]).is_none());
}

#[test]
fn chunk_mut_gives_the_stored_storage() {
    let mut world = World2::new(Uniform::new(2));
    world.insert(vec![2, 2], numbered_chunk(0));
    if let Some(storage) = world.chunk_mut(&vec![2, 2]) {
        storage[0] = 42;
    }
    assert_eq!(world.chunk(&vec![2, 2]), Some(&vec![42, 1, 2, 3]));
    assert!(world.chunk_mut(&vec![9, 9]).is_none());
}

#[test]
fn world_entry_reuses_an_existing_chunk() {
    let mut world = World2::new(Uniform::new(2));
    world.insert(vec![1, 1], numbered_chunk(30));
    {
        let storage = world.entry(vec![1, 1]).or_insert(vec![0, 0, 0, 0]);
        assert_eq!(*storage, vec![30, 31, 32, 33]);
    }
    {
        let storage = world.entry(vec![2, 2]).or_insert(vec![9, 9, 9, 9]);
        assert_eq!(*storage, vec![9, 9, 9, 9]);
    }
    assert_eq!(world.len(), 2);
    let entry = world.entry(vec![1, 1]);
    assert_eq!(entry.position(), vec![1, 1]);
    assert!(entry.value_mut().is_some());
}

#[test]
fn world_resolution_matches_the_shared_shape() {
    let world = World2::new(Uniform::new(2));
    let resolved = world.world_to_chunk_block(&vec![-1, 3]);
    assert_eq!(resolved.chunk, vec![-1, 1]);
    assert_eq!(resolved.block, vec![1, 1]);
    assert_eq!(world.world_to_chunk(&vec![-1, 3]), vec![-1, 1]);
    assert_eq!(world.world_to_block(&vec![-1, 3]), vec![1, 1]);
    assert_eq!(world.chunk_block_to_world(&vec![-1, 1], &vec![1, 1]), vec![-1, 3]);
    assert_eq!(world.shape().stride(), 2);
}

#[test]
fn buffer_from_parts_keeps_capacity_and_contents() {
    let chunk: Buffer<Vec<u8>, Uniform<2>, 2> = Buffer::from_parts(Uniform::new(2), vec![7, 8, 9, 10]);
    assert_eq!(chunk.storage(), &vec![7, 8, 9, 10]);
    assert_eq!(chunk.iter().len(), 4);
    let (shape, storage) = chunk.into_raw_parts();
    assert_eq!(shape.stride(), 2);
    assert_eq!(storage, vec![7, 8, 9, 10]);
}

#[test]
fn world_entry_allocates_with_a_closure() {
    let mut world = World2::new(Uniform::new(2));
    {
        let storage = world.entry(vec![0, 5]).or_insert_with(|| vec![1, 1, 2, 2]);
        assert_eq!(*storage, vec![1, 1, 2, 2]);
    }
    {
        let storage = world
            .entry(vec![5, 0])
            .or_insert_with_key(|k| vec![k[0] as u8; 4]);
        assert_eq!(*storage, vec![5, 5, 5, 5]);
    }
    assert_eq!(world.len(), 2);
    assert_eq!(*world.positions(), vec![vec![5, 0], vec![0, 5]]);
}
