use chunked_vec::{ChunkedVec, ChunkedVecSized};

#[test]
fn test_iter() {
    let mut vec = ChunkedVec::new();
    vec.push(1);
    vec.push(2);
    vec.push(3);

    let mut iter = vec.iter();
    assert_eq!(iter.next(), Some(&1));
    assert_eq!(iter.next(), Some(&2));
    assert_eq!(iter.next(), Some(&3));
    assert_eq!(iter.next(), None);
}

#[test]
fn iter_mut_test_iter_mut() {
    let mut vec = ChunkedVec::new();
    vec.push(1);
    vec.push(2);
    vec.push(3);

    let mut iter = vec.iter_mut();
    assert_eq!(iter.next(), Some(&mut 1));
    assert_eq!(iter.next(), Some(&mut 2));
    let elem = iter.next();
    assert_eq!(elem, Some(&mut 3));
    *elem.unwrap() = 4;
    assert_eq!(iter.next(), None);
    assert_eq!(vec[2], 4);
}

#[test]
fn into_iter_test_into_iter() {
    let mut vec = ChunkedVec::new();
    vec.push(1);
    vec.push(2);
    vec.push(3);

    let mut iter = vec.into_iter();
    assert_eq!(iter.next(), Some(1));
    assert_eq!(iter.next(), Some(2));
    assert_eq!(iter.next(), Some(3));
    assert_eq!(iter.next(), None);
}

#[test]
fn iter_crosses_chunk_boundaries_and_stays_at_the_end() {
    let mut vec: ChunkedVec<u32, 2> = ChunkedVecSized::new();
    for value in 0..5 {
        vec.push(value);
    }
    let mut iter = vec.iter();
    let mut seen = Vec::new();
    while let Some(value) = iter.next() {
        seen.push(*value);
    }
    assert_eq!(seen, vec![0, 1, 2, 3, 4]);
    assert_eq!(iter.next(), None);
    assert_eq!(iter.next(), None);
    assert_eq!(vec.len(), 5);
}

#[test]
fn iter_over_an_empty_container_yields_nothing() {
    let vec: ChunkedVec<u32, 2> = ChunkedVecSized::with_chunk_count(2);
    let mut iter = vec.iter();
    assert_eq!(iter.next(), None);
}

#[test]
fn iter_mut_writes_reach_the_container() {
    let mut vec: ChunkedVec<i32, 2> = ChunkedVecSized::new();
    for value in 1..=5 {
        vec.push(value);
    }
    let mut iter = vec.iter_mut();
    while let Some(value) = iter.next() {
        *value *= 2;
    }
    let got: Vec<i32> = (0..vec.len()).map(|i| vec[i]).collect();
    assert_eq!(got, vec![2, 4, 6, 8, 10]);
}

#[test]
fn into_iter_reports_what_is_left() {
    let mut vec: ChunkedVec<String, 2> = ChunkedVecSized::new();
    for word in ["a", "b", "c", "d", "e"] {
        vec.push(word.to_string());
    }
    let mut iter = vec.into_iter();
    assert_eq!(iter.size_hint(), (5, Some(5)));
    assert_eq!(iter.next(), Some("a".to_string()));
    assert_eq!(iter.next(), Some("b".to_string()));
    assert_eq!(iter.size_hint(), (3, Some(3)));
    assert_eq!(iter.next(), Some("c".to_string()));
    assert_eq!(iter.next(), Some("d".to_string()));
    assert_eq!(iter.next(), Some("e".to_string()));
    assert_eq!(iter.size_hint(), (0, Some(0)));
    assert_eq!(iter.next(), None);
    assert_eq!(iter.next(), None);
}

#[test]
fn finish_hands_back_an_empty_container() {
    let mut vec: ChunkedVec<i32, 2> = ChunkedVecSized::new();
    for value in 0..5 {
        vec.push(value);
    }
    let mut iter = vec.into_iter();
    assert_eq!(iter.next(), Some(0));
    assert_eq!(iter.next(), Some(1));
    let mut vec = iter.finish();
    assert!(vec.is_empty());
    assert_eq!(vec.allocated_capacity(), 6);
    assert_eq!(vec.get(2), None);
    vec.push(8);
    assert_eq!(vec[0], 8);
}
