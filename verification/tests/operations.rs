use chunked_vec::location::{chunks_for, locate, slots_for};
use chunked_vec::{ChunkedVec, ChunkedVecSized};

fn contents<const N: usize>(vec: &ChunkedVec<i32, N>) -> Vec<i32> {
    (0..vec.len()).map(|i| vec[i]).collect()
}

#[test]
fn test_new_chunked_vec() {
    let vec: ChunkedVec<i32, 4> = ChunkedVecSized::new();
    assert!(vec.is_empty());
    assert_eq!(vec.len(), 0);
}

#[test]
fn test_push() {
    let mut vec: ChunkedVec<i32, 4> = ChunkedVecSized::new();

    // Test adding the first element
    vec.push(1);
    assert_eq!(vec.len(), 1);
    assert!(!vec.is_empty());

    // Test adding more elements within the same chunk
    vec.push(2);
    vec.push(3);
    vec.push(4);
    assert_eq!(vec.len(), 4);

    // Test adding element that causes creation of a new chunk
    vec.push(5);
    assert_eq!(vec.len(), 5);
}

#[test]
fn test_capacity() {
    let mut vec: ChunkedVec<i32, 4> = ChunkedVecSized::new();

    // Add enough elements to create a new chunk
    for i in 0..5 {
        vec.push(i);
    }

    // Capacity should be able to hold at least two chunks
    assert!(vec.capacity() >= 8);
}

#[test]
fn locate_divides_the_index_by_the_chunk_size() {
    assert_eq!(locate(0, 4), (0, 0));
    assert_eq!(locate(3, 4), (0, 3));
    assert_eq!(locate(4, 4), (1, 0));
    assert_eq!(locate(210, 64), (3, 18));
    assert_eq!(locate(7, 1), (7, 0));
    assert_eq!(locate(usize::MAX, usize::MAX), (1, 0));
    assert_eq!(locate(usize::MAX - 1, usize::MAX), (0, usize::MAX - 1));
}

#[test]
fn chunks_for_rounds_up() {
    assert_eq!(chunks_for(0, 4), 0);
    assert_eq!(chunks_for(1, 4), 1);
    assert_eq!(chunks_for(4, 4), 1);
    assert_eq!(chunks_for(5, 4), 2);
    assert_eq!(chunks_for(10, 64), 1);
    assert_eq!(chunks_for(210, 64), 4);
    assert_eq!(chunks_for(usize::MAX, 1), usize::MAX);
    assert_eq!(chunks_for(usize::MAX, 2), usize::MAX / 2 + 1);
}

#[test]
fn slots_for_multiplies_and_caps_at_whole_chunks() {
    assert_eq!(slots_for(0, 4), 0);
    assert_eq!(slots_for(3, 4), 12);
    assert_eq!(slots_for(4, 64), 256);
    assert_eq!(slots_for(5, 0), 0);
    assert_eq!(slots_for(usize::MAX, 1), usize::MAX);
    assert_eq!(slots_for(usize::MAX, 2), usize::MAX - 1);
    assert_eq!(slots_for(usize::MAX / 64 + 1, 64), (usize::MAX / 64) * 64);
}

#[test]
fn push_across_a_chunk_boundary() {
    let mut vec: ChunkedVec<i32, 4> = ChunkedVecSized::new();
    for value in 1..=5 {
        vec.push(value);
    }
    assert_eq!(vec.len(), 5);
    assert_eq!(vec.allocated_capacity(), 8);
    assert_eq!(vec[4], 5);
    assert_eq!(contents(&vec), vec![1, 2, 3, 4, 5]);
}

#[test]
fn resize_shrinks_then_grows() {
    let mut vec: ChunkedVec<i32, 4> = ChunkedVecSized::new();
    for value in 1..=5 {
        vec.push(value);
    }

    vec.resize(3, 0);
    assert_eq!(vec.len(), 3);
    assert_eq!(vec.allocated_capacity(), 4);
    assert_eq!(contents(&vec), vec![1, 2, 3]);

    vec.resize(6, 9);
    assert_eq!(vec.len(), 6);
    assert_eq!(vec.allocated_capacity(), 8);
    assert_eq!(contents(&vec), vec![1, 2, 3, 9, 9, 9]);
}

#[test]
fn resize_to_the_same_length_changes_nothing() {
    let mut vec: ChunkedVec<i32, 4> = ChunkedVecSized::with_chunk_count(3);
    for value in 0..5 {
        vec.push(value);
    }
    vec.resize(5, 77);
    assert_eq!(contents(&vec), vec![0, 1, 2, 3, 4]);
    assert_eq!(vec.allocated_capacity(), 12);
}

#[test]
fn resize_to_zero_releases_every_chunk() {
    let mut vec: ChunkedVec<i32, 2> = ChunkedVecSized::new();
    for value in 0..5 {
        vec.push(value);
    }
    vec.resize(0, 1);
    assert_eq!(vec.len(), 0);
    assert!(vec.is_empty());
    assert_eq!(vec.allocated_capacity(), 0);
    assert_eq!(vec.get(0), None);
}

#[test]
fn resize_grows_an_empty_container_to_a_chunk_boundary() {
    let mut vec: ChunkedVec<i32, 4> = ChunkedVecSized::new();
    vec.resize(8, 6);
    assert_eq!(vec.len(), 8);
    assert_eq!(vec.allocated_capacity(), 8);
    assert_eq!(contents(&vec), vec![6; 8]);
    vec.push(7);
    assert_eq!(vec.allocated_capacity(), 12);
    assert_eq!(vec[8], 7);
}

#[test]
fn resize_keeps_reserved_chunks_when_growing() {
    let mut vec: ChunkedVec<i32, 4> = ChunkedVecSized::with_chunk_count(3);
    vec.resize(2, 5);
    assert_eq!(vec.allocated_capacity(), 12);
    assert_eq!(contents(&vec), vec![5, 5]);
}

#[test]
fn remove_compacts_across_chunks() {
    let mut vec: ChunkedVec<i32, 2> = ChunkedVecSized::new();
    for value in [10, 20, 30, 40, 50] {
        vec.push(value);
    }
    assert_eq!(vec.remove(1), 20);
    assert_eq!(vec.len(), 4);
    assert_eq!(contents(&vec), vec![10, 30, 40, 50]);
    assert_eq!(vec.allocated_capacity(), 4);
}

#[test]
fn remove_first_and_last() {
    let mut vec: ChunkedVec<i32, 3> = ChunkedVecSized::new();
    for value in 0..7 {
        vec.push(value);
    }
    assert_eq!(vec.remove(0), 0);
    assert_eq!(contents(&vec), vec![1, 2, 3, 4, 5, 6]);
    assert_eq!(vec.allocated_capacity(), 6);
    assert_eq!(vec.remove(5), 6);
    assert_eq!(contents(&vec), vec![1, 2, 3, 4, 5]);
    assert_eq!(vec.remove(2), 3);
    assert_eq!(contents(&vec), vec![1, 2, 4, 5]);
    vec.push(9);
    assert_eq!(contents(&vec), vec![1, 2, 4, 5, 9]);
}

#[test]
fn remove_the_only_element_releases_the_chunk() {
    let mut vec: ChunkedVec<i32, 4> = ChunkedVecSized::new();
    vec.push(3);
    assert_eq!(vec.remove(0), 3);
    assert!(vec.is_empty());
    assert_eq!(vec.allocated_capacity(), 0);
    vec.push(4);
    assert_eq!(contents(&vec), vec![4]);
}

#[test]
fn remove_with_a_chunk_size_of_one() {
    let mut vec: ChunkedVec<i32, 1> = ChunkedVecSized::new();
    for value in 0..4 {
        vec.push(value);
    }
    assert_eq!(vec.remove(1), 1);
    assert_eq!(contents(&vec), vec![0, 2, 3]);
    assert_eq!(vec.allocated_capacity(), 3);
}

#[test]
fn remove_every_element_from_the_front() {
    let mut vec: ChunkedVec<i32, 4> = ChunkedVecSized::new();
    for value in 0..10 {
        vec.push(value);
    }
    for expected in 0..10 {
        assert_eq!(vec.remove(0), expected);
        let rest: Vec<i32> = (expected + 1..10).collect();
        assert_eq!(contents(&vec), rest);
    }
    assert!(vec.is_empty());
}

#[test]
fn capacity_is_whole_chunks_and_covers_what_is_allocated() {
    let mut vec: ChunkedVec<i32, 4> = ChunkedVecSized::with_capacity(5);
    for value in 0..30 {
        assert_eq!(vec.capacity() % 4, 0);
        assert!(vec.capacity() >= vec.allocated_capacity());
        assert!(vec.allocated_capacity() >= vec.len());
        assert_eq!(vec.allocated_capacity() % 4, 0);
        vec.push(value);
    }
    while !vec.is_empty() {
        vec.remove(vec.len() / 2);
        assert_eq!(vec.capacity() % 4, 0);
        assert!(vec.capacity() >= vec.allocated_capacity());
        assert!(vec.allocated_capacity() >= vec.len());
    }
}

#[test]
fn clear_empties_the_container_and_keeps_its_chunks() {
    let mut vec: ChunkedVec<i32, 4> = ChunkedVecSized::new();
    for value in 0..9 {
        vec.push(value);
    }
    vec.clear();
    assert!(vec.is_empty());
    assert_eq!(vec.get(0), None);
    assert_eq!(vec.allocated_capacity(), 12);
    vec.push(1);
    assert_eq!(contents(&vec), vec![1]);
}
