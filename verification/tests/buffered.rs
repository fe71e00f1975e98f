use parmap::buffered::IntoBufferedIterator;
use parmap::source::Source;
use parmap::source::VecSource;

fn drain<S: Source>(mut s: S) -> Vec<S::Item> {
    let mut out = Vec::new();
    while let Some(x) = s.next() {
        out.push(x);
    }
    out
}

#[test]
fn buffered_test_iter() {
    let src = VecSource::new((0..10).collect::<Vec<i32>>());
    let iter = drain(src.buffered(10));
    assert_eq!(iter, (0..10).collect::<Vec<_>>())
}

#[test]
fn test_buffered_small_capacity() {
    let src = VecSource::new(vec![1u32, 2, 3, 4, 5]);
    let out = drain(src.buffered(1));
    assert_eq!(out, vec![1, 2, 3, 4, 5]);
}

#[test]
fn test_buffered_empty_source() {
    let src = VecSource::new(Vec::<u32>::new());
    let mut it = src.buffered(4);
    assert_eq!(it.next(), None);
    assert_eq!(it.next(), None);
}
