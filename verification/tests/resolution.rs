use gridworld::resolve::chunk_block_to_world;
use gridworld::resolve::chunk_to_world;
use gridworld::resolve::from_end_relative;
use gridworld::resolve::world_to_block;
use gridworld::resolve::world_to_chunk;
use gridworld::resolve::world_to_chunk_block;

#[test]
fn test_from_end_relative() {
    let extents = vec![16usize, 16, 16];
    assert_eq!(vec![0, 0, 0], from_end_relative(&extents, &vec![0, 0, 0]));
    assert_eq!(vec![0, 0, 0], from_end_relative(&extents, &vec![-16, -16, -16]));
    assert_eq!(vec![15, 15, 15], from_end_relative(&extents, &vec![-1, -1, -1]));
    assert_eq!(vec![1, 1, 1], from_end_relative(&extents, &vec![1, 1, 1]));
    assert_eq!(vec![0, 0, 0], from_end_relative(&extents, &vec![0, -16, 16]));
}

fn debug_coordinates() -> [((Vec<i32>, Vec<i32>), Vec<i32>); 16] {
    let f = |a: [i32; 2], b: [i32; 2], c: [i32; 2]| ((a.to_vec(), b.to_vec()), c.to_vec());
    [
        f([0, 0], [0, 0], [0, 0]),
        f([0, 0], [1, 0], [1, 0]),
        f([0, 0], [0, 1], [0, 1]),
        f([0, 0], [1, 1], [1, 1]),
        f([-1, -1], [0, 0], [-2, -2]),
        f([-1, -1], [1, 0], [-1, -2]),
        f([-1, -1], [0, 1], [-2, -1]),
        f([-1, -1], [1, 1], [-1, -1]),
        f([-1, 0], [0, 0], [-2, 0]),
        f([-1, 0], [1, 0], [-1, 0]),
        f([-1, 0], [0, 1], [-2, 1]),
        f([-1, 0], [1, 1], [-1, 1]),
        f([0, -1], [0, 0], [0, -2]),
        f([0, -1], [1, 0], [1, -2]),
        f([0, -1], [0, 1], [0, -1]),
        f([0, -1], [1, 1], [1, -1]),
    ]
}

#[test]
fn test_world_to_chunk() {
    for (chunk_block, world) in debug_coordinates() {
        assert_eq!(world_to_chunk(&vec![2, 2], &world), chunk_block.0);
    }
}

#[test]
fn test_world_to_block() {
    for (chunk_block, world) in debug_coordinates() {
        assert_eq!(world_to_block(&vec![2, 2], &world), chunk_block.1);
    }
}

#[test]
fn test_chunk_block_to_world() {
    for ((chunk, block), world) in debug_coordinates() {
        assert_eq!(chunk_block_to_world(&vec![2, 2], &chunk, &block), world);
    }
}

#[test]
fn negative_world_positions_resolve_to_nonnegative_blocks() {
    let extents = vec![2usize, 2];
    let (chunk, block) = world_to_chunk_block(&extents, &vec![-1, -1]);
    assert_eq!(chunk, vec![-1, -1]);
    assert_eq!(block, vec![1, 1]);
    let (chunk, block) = world_to_chunk_block(&extents, &vec![1, 1]);
    assert_eq!(chunk, vec![0, 0]);
    assert_eq!(block, vec![1, 1]);
}

#[test]
fn resolution_round_trips_for_negative_coordinates() {
    let extents = vec![3usize, 5, 7];
    for x in -20..20 {
        for y in -7..7 {
            let world = vec![x, y, 13];
            let (chunk, block) = world_to_chunk_block(&extents, &world);
            for b in &block {
                assert!(*b >= 0);
            }
            assert_eq!(chunk_block_to_world(&extents, &chunk, &block), world);
        }
    }
}

#[test]
fn chunk_to_world_scales_by_the_extents() {
    assert_eq!(chunk_to_world(&vec![16, 16], &vec![-1, 2]), vec![-16, 32]);
}
