use parmap::interleave::IntoInterleaveIterator;
use parmap::source::Source;
use parmap::source::VecSource;

fn drain<S: Source>(mut s: S) -> Vec<S::Item> {
    let mut out = Vec::new();
    while let Some(x) = s.next() {
        out.push(x);
    }
    out
}

#[test]
fn test1() {
    let a = vec![1, 2, 3, 4, 5];
    let b = vec![6, 7, 8, 9, 10];
    let out = vec![1, 6, 2, 7, 3, 8, 4, 9, 5, 10];

    // By reference
    let left = VecSource::new(a.iter().collect::<Vec<_>>());
    let right = VecSource::new(b.iter().collect::<Vec<_>>());
    let c = drain(left.interleave(right));
    assert_eq!(out.iter().collect::<Vec<_>>(), c);

    // By value
    let c = drain(VecSource::new(a).interleave(VecSource::new(b)));
    assert_eq!(out, c);
}

#[test]
fn test2() {
    let a = vec![1, 2, 3];
    let b = vec![6, 7, 8, 9, 10];
    let out = vec![1, 6, 2, 7, 3, 8];

    // By reference
    let left = VecSource::new(a.iter().collect::<Vec<_>>());
    let right = VecSource::new(b.iter().collect::<Vec<_>>());
    let c = drain(left.interleave(right));
    assert_eq!(out.iter().collect::<Vec<_>>(), c);

    // By value
    let c = drain(VecSource::new(a).interleave(VecSource::new(b)));
    assert_eq!(out, c);
}

#[test]
fn test3() {
    let a = vec![1, 2, 3, 4, 5];
    let b = vec![6, 7, 8];
    let out = vec![1, 6, 2, 7, 3, 8, 4];

    // By reference
    let left = VecSource::new(a.iter().collect::<Vec<_>>());
    let right = VecSource::new(b.iter().collect::<Vec<_>>());
    let c = drain(left.interleave(right));
    assert_eq!(out.iter().collect::<Vec<_>>(), c);

    // By value
    let c = drain(VecSource::new(a).interleave(VecSource::new(b)));
    assert_eq!(out, c);
}

#[test]
fn test_interleave_empty_left() {
    let a: Vec<u32> = vec![];
    let b = vec![6u32, 7, 8];
    let c = drain(VecSource::new(a).interleave(VecSource::new(b)));
    assert_eq!(c, Vec::<u32>::new());
}
