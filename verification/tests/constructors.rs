use chunked_vec::{ChunkedVec, ChunkedVecSized};

#[test]
fn constructors_test_new() {
    let vec: ChunkedVec<i32, 64> = ChunkedVec::new();
    assert_eq!(vec.len(), 0);
    assert_eq!(vec.capacity(), 0);
}

#[test]
fn constructors_test_with_capacity() {
    let mut vec: ChunkedVec<i32, 64> = ChunkedVec::with_capacity(10);
    assert_eq!(vec.len(), 0);
    assert_eq!(vec.capacity(), 64);

    for i in 0..10 {
        vec.push(i);
    }
    assert_eq!(vec.len(), 10);
    assert_eq!(vec.capacity(), 64);

    for i in 0..200 {
        vec.push(i);
    }
    assert_eq!(vec.len(), 210);
    assert_eq!(vec.capacity(), 256)
}

#[test]
fn constructors_test_with_chunks() {
    let mut vec = ChunkedVec::with_chunk_count(2);
    assert_eq!(vec.len(), 0);
    for i in 0..16 {
        vec.push(i);
    }
    assert_eq!(vec.len(), 16);
}

#[test]
fn constructors_test_with_chunk_size() {
    let vec: ChunkedVec<i32, 8> = ChunkedVec::with_chunk_size();
    assert_eq!(vec.len(), 0);
}

#[test]
fn constructors_test_with_chunk_size_and_capacity() {
    let mut vec: ChunkedVec<i32, 8> = ChunkedVec::with_chunk_size_and_capacity(10);
    assert_eq!(vec.len(), 0);
    assert_eq!(vec.capacity(), 16);
    for i in 0..20 {
        vec.push(i);
    }
    assert_eq!(vec.len(), 20);
    assert_eq!(vec.capacity(), 32);
}

#[test]
fn new_test_new() {
    let vec: ChunkedVec<i32, 64> = ChunkedVec::new();
    assert_eq!(vec.len(), 0);
    assert_eq!(vec.capacity(), 0);
}

#[test]
fn new_test_with_capacity() {
    let mut vec: ChunkedVec<i32, 64> = ChunkedVec::with_capacity(10);
    assert_eq!(vec.len(), 0);
    assert_eq!(vec.capacity(), 64);

    for i in 0..10 {
        vec.push(i);
    }
    assert_eq!(vec.len(), 10);
    assert_eq!(vec.capacity(), 64);

    for i in 0..200 {
        vec.push(i);
    }
    assert_eq!(vec.len(), 210);
    assert_eq!(vec.capacity(), 256)
}

#[test]
fn new_test_with_chunks() {
    let mut vec = ChunkedVec::with_chunk_count(2);
    assert_eq!(vec.len(), 0);
    for i in 0..16 {
        vec.push(i);
    }
    assert_eq!(vec.len(), 16);
}

#[test]
fn new_test_with_chunk_size() {
    let vec: ChunkedVec<i32, 8> = ChunkedVecSized::new();
    assert_eq!(vec.len(), 0);
}

#[test]
fn new_test_with_chunk_size_and_capacity() {
    let mut vec: ChunkedVec<i32, 8> = ChunkedVecSized::with_capacity(10);
    assert_eq!(vec.len(), 0);
    assert_eq!(vec.capacity(), 16);
    for i in 0..20 {
        vec.push(i);
    }
    assert_eq!(vec.len(), 20);
    assert_eq!(vec.capacity(), 32);
}

#[test]
fn with_chunk_size_and_count_allocates_the_chunks() {
    let vec: ChunkedVec<i32, 8> = ChunkedVec::with_chunk_size_and_count(3);
    assert_eq!(vec.len(), 0);
    assert!(vec.is_empty());
    assert_eq!(vec.allocated_capacity(), 24);
    assert_eq!(vec.capacity(), 24);
}

#[test]
fn with_capacity_rounds_up_to_whole_chunks() {
    let exact: ChunkedVec<u8, 4> = ChunkedVecSized::with_capacity(8);
    assert_eq!(exact.allocated_capacity(), 8);
    let over: ChunkedVec<u8, 4> = ChunkedVecSized::with_capacity(9);
    assert_eq!(over.allocated_capacity(), 12);
    let none: ChunkedVec<u8, 4> = ChunkedVecSized::with_capacity(0);
    assert_eq!(none.allocated_capacity(), 0);
    assert_eq!(none.len(), 0);
}

#[test]
fn reserved_chunks_are_filled_before_new_ones_are_allocated() {
    let mut vec: ChunkedVec<u32, 4> = ChunkedVecSized::with_chunk_count(2);
    for i in 0..8 {
        vec.push(i);
        assert_eq!(vec.allocated_capacity(), 8);
    }
    vec.push(8);
    assert_eq!(vec.allocated_capacity(), 12);
    for i in 0..9 {
        assert_eq!(vec[i], i as u32);
    }
}

#[test]
fn test_default() {
    let vec = ChunkedVec::<(), 64>::default();
    assert_eq!(vec.len(), 0);
}

#[test]
fn test_from_iterator() {
    let vec = vec![1, 2, 3, 4, 5];
    let chunked_vec = ChunkedVec::from_vec(vec);
    assert_eq!(chunked_vec.len(), 5);
}

#[test]
fn test_from_vec() {
    let vec = vec![1, 2, 3, 4, 5];
    let chunked_vec = ChunkedVec::from_vec(vec);
    assert_eq!(chunked_vec.len(), 5);

    let chunked_vec = ChunkedVec::from_vec(vec![2, 3, 1]);
    assert_eq!(chunked_vec[0], 2);
    assert_eq!(chunked_vec[1], 3);
    assert_eq!(chunked_vec[2], 1);
}

#[test]
fn test_from_array() {
    let chunked_vec = ChunkedVec::from_array([2, 3, 1]);
    assert_eq!(chunked_vec[0], 2);
    assert_eq!(chunked_vec[1], 3);
    assert_eq!(chunked_vec[2], 1);
}

#[test]
fn test_from_slice() {
    let slice: &[i32] = &[2, 3, 1];
    let chunked_vec = ChunkedVec::from_slice(slice);
    assert_eq!(chunked_vec[0], 2);
    assert_eq!(chunked_vec[1], 3);
    assert_eq!(chunked_vec[2], 1);
}

#[test]
fn from_vec_spans_several_chunks_in_order() {
    let source: Vec<usize> = (0..200).collect();
    let chunked = ChunkedVec::from_vec(source);
    assert_eq!(chunked.len(), 200);
    assert_eq!(chunked.allocated_capacity(), 256);
    for i in 0..200 {
        assert_eq!(chunked[i], i);
    }
    assert_eq!(chunked.get(200), None);
}

#[test]
fn test_empty_chunked_vec() {
    let v: ChunkedVec<i32, 64> = ChunkedVec::new();
    assert_eq!(v.len(), 0);
}

#[test]
fn test_chunked_vec_with_elements() {
    let mut v = ChunkedVec::new();
    v.push(1);
    v.push(2);
    v.push(3);
    assert_eq!(v.len(), 3);
    assert_eq!(v[0], 1);
    assert_eq!(v[1], 2);
    assert_eq!(v[2], 3);
}

#[test]
fn test_chunked_vec_with_size() {
    let mut v = ChunkedVec::with_capacity(3);
    v.resize(3, 1);
    assert_eq!(v.len(), 3);
    assert_eq!(v[0], 1);
    assert_eq!(v[1], 1);
    assert_eq!(v[2], 1);
}

#[test]
fn test_chunked_vec_with_trailing_comma() {
    let mut v = ChunkedVec::new();
    v.push(1);
    v.push(2);
    v.push(3);
    assert_eq!(v.len(), 3);
    assert_eq!(v[0], 1);
    assert_eq!(v[1], 2);
    assert_eq!(v[2], 3);
}
