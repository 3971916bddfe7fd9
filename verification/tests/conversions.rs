use gridworld::convert::capacity;
use gridworld::convert::index_to_position;
use gridworld::convert::index_to_position_offset;
use gridworld::convert::index_to_position_with_range;
use gridworld::convert::position_to_index;
use gridworld::convert::position_to_index_offset;
use gridworld::convert::position_to_index_with_range;
use gridworld::convert::unroll_extents_range;
use gridworld::uniform;

fn helper(mut f: impl FnMut(usize, Vec<i32>)) {
    let x: usize = 5;
    let y: usize = 7;
    let z: usize = 1;
    let w: usize = 4;
    let v: usize = 10;
    let mut it = 0..(x * y * z * w * v);
    for cv in 0..v {
        for cw in 0..w {
            for cz in 0..z {
                for cy in 0..y {
                    for cx in 0..x {
                        f(
                            it.next().unwrap(),
                            vec![cx as i32, cy as i32, cz as i32, cw as i32, cv as i32],
                        );
                    }
                }
            }
        }
    }
}

#[test]
fn no_cubic_test_from_indices() {
    helper(|expected, position| {
        let result = position_to_index(&vec![5, 7, 1, 4, 10], &position).unwrap();
        assert_eq!(expected, result);
    });
}

#[test]
fn no_cubic_test_to_indices() {
    helper(|index, expected| {
        let result = index_to_position(&vec![5, 7, 1, 4, 10], index).unwrap();
        assert_eq!(expected, result);
    });
}

#[test]
fn position_index_conversion_test_position_to_index() {
    helper(|expected, position| {
        let result = position_to_index(&vec![5, 7, 1, 4, 10], &position).unwrap();
        assert_eq!(expected, result);
    });
}

#[test]
fn position_index_conversion_test_index_to_position() {
    helper(|index, expected| {
        let result = index_to_position(&vec![5, 7, 1, 4, 10], index).unwrap();
        assert_eq!(expected, result);
    });
}

#[test]
fn na_test_position_to_index() {
    helper(|expected, position| {
        let result = position_to_index(&vec![5, 7, 1, 4, 10], &position).unwrap();
        assert_eq!(expected, result);
    });
}

#[test]
fn na_test_index_to_position() {
    helper(|index, expected| {
        let result = index_to_position(&vec![5, 7, 1, 4, 10], index).unwrap();
        assert_eq!(expected, result);
    });
}

fn uniform_helper(mut f: impl FnMut(usize, Vec<i32>)) {
    let s: usize = 16;
    let mut it = 0..(s * s * s);
    for z in 0..s {
        for y in 0..s {
            for x in 0..s {
                f(it.next().unwrap(), vec![x as i32, y as i32, z as i32]);
            }
        }
    }
}

#[test]
fn uniform_test_from_indices() {
    uniform_helper(|expected, position| {
        let result = uniform::position_to_index(16, &position).unwrap();
        assert_eq!(expected, result);
    });
}

#[test]
fn uniform_test_to_indices() {
    uniform_helper(|index, expected| {
        let result = uniform::index_to_position(16, 3, index).unwrap();
        assert_eq!(expected, result);
    });
}

#[test]
fn position_test_from_indices() {
    uniform_helper(|expected, position| {
        let result = uniform::position_to_index(16, &position).unwrap();
        assert_eq!(expected, result);
    });
}

#[test]
fn position_test_to_indices() {
    uniform_helper(|index, expected| {
        let result = uniform::index_to_position(16, 3, index).unwrap();
        assert_eq!(expected, result);
    });
}

#[test]
fn test_position_to_index_with_range_0() {
    helper(|expected, position| {
        let start = vec![0i32; 5];
        let end = vec![5, 7, 1, 4, 10];
        let result = position_to_index_with_range(&start, &end, &position).unwrap();
        assert_eq!(expected, result);
    });
}

#[test]
fn test_position_to_index_with_range_1() {
    helper(|expected, position| {
        let start = vec![0i32; 5];
        let end = vec![5, 7, 1, 4, 10];
        let result = position_to_index_with_range(&start, &end, &position).unwrap();
        assert_eq!(expected, result);
    });
}

#[test]
fn index_to_position_with_range_round_trip() {
    helper(|index, expected| {
        let start = vec![0i32; 5];
        let end = vec![5, 7, 1, 4, 10];
        let result = index_to_position_with_range(&start, &end, index).unwrap();
        assert_eq!(expected, result);
    });
}

#[test]
fn start_0() {
    assert_eq!(
        vec![5usize, 1, 3],
        unroll_extents_range(&vec![0, 0, 0], &vec![5, 1, 3])
    );
}

#[test]
fn start_negative_1() {
    assert_eq!(
        vec![6usize, 2, 4],
        unroll_extents_range(&vec![-1, -1, -1], &vec![5, 1, 3])
    );
}

#[test]
fn start_positive_1() {
    assert_eq!(
        vec![4usize, 0, 2],
        unroll_extents_range(&vec![1, 1, 1], &vec![5, 1, 3])
    );
}

#[test]
fn rejects_out_of_range_positions() {
    let extents = vec![2usize, 3];
    assert_eq!(position_to_index(&extents, &vec![-1, 0]), None);
    assert_eq!(position_to_index(&extents, &vec![0, 3]), None);
    assert_eq!(position_to_index(&extents, &vec![2, 0]), None);
    assert_eq!(position_to_index(&extents, &vec![1, 2]), Some(5));
}

#[test]
fn rejects_out_of_range_indices() {
    let extents = vec![2usize, 3];
    assert_eq!(index_to_position(&extents, 6), None);
    assert_eq!(index_to_position(&extents, 5), Some(vec![1, 2]));
}

#[test]
fn capacity_is_the_extent_product() {
    assert_eq!(capacity(&vec![5, 7, 1, 4, 10]), 1400);
    assert_eq!(capacity(&Vec::new()), 1);
    assert_eq!(uniform::subdimension(16, 3), 4096);
    assert_eq!(uniform::subdimension(16, 0), 1);
}

#[test]
fn offset_conversions_shift_by_the_offset() {
    let extents = vec![4usize, 4];
    let offset = vec![-2i32, 10];
    let index = position_to_index_offset(&extents, &offset, &vec![-1, 11]).unwrap();
    assert_eq!(index, 1 + 4 * 1);
    assert_eq!(
        index_to_position_offset(&extents, &offset, index).unwrap(),
        vec![-1, 11]
    );
    assert_eq!(position_to_index_offset(&extents, &offset, &vec![-3, 10]), None);
}
