use rustdsa::chunks::ChunkIter;

#[test]
fn chunks_cover_the_data_in_order() {
    let data = [1, 2, 3, 4, 5, 6, 7];
    let mut it = ChunkIter::new(&data, 3);
    assert_eq!(it.size_hint(), (3, Some(3)));
    assert_eq!(it.next(), Some(&data[0..3]));
    assert_eq!(it.size_hint(), (2, Some(2)));
    assert_eq!(it.next(), Some(&data[3..6]));
    assert_eq!(it.size_hint(), (1, Some(1)));
    assert_eq!(it.next(), Some(&data[6..7]));
    assert_eq!(it.size_hint(), (0, Some(0)));
    assert_eq!(it.next(), None);
    assert_eq!(it.next(), None);
}

#[test]
fn chunks_of_exact_multiples() {
    let data = [10, 20, 30, 40];
    let mut it = ChunkIter::new(&data, 2);
    assert_eq!(it.size_hint(), (2, Some(2)));
    assert_eq!(it.next(), Some(&[10, 20][..]));
    assert_eq!(it.next(), Some(&[30, 40][..]));
    assert_eq!(it.next(), None);
}

#[test]
fn chunks_of_empty_data() {
    let data: [i64; 0] = [];
    let mut it = ChunkIter::new(&data, 4);
    assert_eq!(it.size_hint(), (0, Some(0)));
    assert_eq!(it.next(), None);
}

#[test]
fn chunk_larger_than_the_data() {
    let data = [1u8, 2, 3];
    let mut it = ChunkIter::new(&data, usize::MAX);
    assert_eq!(it.size_hint(), (1, Some(1)));
    assert_eq!(it.next(), Some(&data[..]));
    assert_eq!(it.next(), None);
}
