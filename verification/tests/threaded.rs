use parmap::buffered::IntoBufferedIterator;
use parmap::source::VecSource;
use parmap::threaded::IntoThreadedIterator;
use parmap::threaded::Worker;

fn square(x: i32) -> i32 {
    x * x
}

#[test]
fn threaded_test_worker() {
    let mut pool = Worker::new(&square);

    pool.send(Some(10));
    let res = pool.recv();
    assert_eq!(res, Some(100))
}

#[test]
fn threaded_test_iter() {
    let src = VecSource::new((0..10).collect::<Vec<i32>>());
    let mut it = src.par_map(square, 4);
    let mut iter: Vec<i32> = Vec::new();
    while let Some(x) = it.next() {
        iter.push(x);
    }
    assert_eq!(iter, [0, 1, 4, 9, 16, 25, 36, 49, 64, 81])
}

#[test]
fn test_worker_forwards_end_marker() {
    let mut pool: Worker<i32, _> = Worker::new(&square);
    pool.send(None);
    let res = pool.recv();
    assert_eq!(res, None);
}

#[test]
fn test_empty_source_ends_at_once() {
    let src = VecSource::new(Vec::<i32>::new());
    let mut it = src.par_map(square, 3);
    assert_eq!(it.next(), None);
    assert_eq!(it.next(), None);
}

#[test]
fn test_pool_size_is_fixed() {
    let src = VecSource::new(vec![1, 2, 3]);
    let mut it = src.par_map(square, 4);
    assert_eq!(it.num_workers(), 4);
    assert_eq!(it.next(), Some(1));
    assert_eq!(it.next(), Some(4));
    assert_eq!(it.num_workers(), 4);
}

#[test]
fn test_single_worker_keeps_order() {
    let src = VecSource::new(vec![3, 1, 2]);
    let mut it = src.par_map(square, 1);
    assert_eq!(it.next(), Some(9));
    assert_eq!(it.next(), Some(1));
    assert_eq!(it.next(), Some(4));
    assert_eq!(it.next(), None);
}

#[test]
fn test_compose_with_buffered() {
    let src = VecSource::new((0..6).collect::<Vec<i32>>()).buffered(2);
    let mut it = src.par_map(square, 2);
    let mut out: Vec<i32> = Vec::new();
    while let Some(x) = it.next() {
        out.push(x);
    }
    assert_eq!(out, [0, 1, 4, 9, 16, 25]);
}

#[test]
fn test_pool_larger_than_source() {
    let src = VecSource::new(vec![2, 5]);
    let mut it = src.par_map(square, 8);
    assert_eq!(it.next(), Some(4));
    assert_eq!(it.next(), Some(25));
    assert_eq!(it.next(), None);
}
