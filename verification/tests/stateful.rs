use parmap::source::VecSource;
use parmap::stateful::IntoStatefulMapIterator;
use parmap::stateful::StatefulMapIterator;

fn drain_stateful<I, S, O, F>(mut it: StatefulMapIterator<I, S, F>) -> Vec<O>
where
    I: parmap::source::Source,
    F: Fn(&S, I::Item) -> (S, O),
{
    let mut out = Vec::new();
    while let Some(x) = it.next() {
        out.push(x);
    }
    out
}

struct CumsumState {
    total: u8,
}

fn cumsum(state: &CumsumState, x: u8) -> (CumsumState, u8) {
    let total = state.total + x;
    (CumsumState { total }, total)
}

struct FibState {
    prev0: usize,
    prev1: usize,
}

fn fib(state: &FibState, _x: usize) -> (FibState, usize) {
    let next = state.prev0 + state.prev1;
    (FibState { prev0: state.prev1, prev1: next }, next)
}

struct BufferState {
    buffer: Vec<u8>,
}

fn arbitrary_vector_stuff(state: &BufferState, x: u8) -> (BufferState, u8) {
    // Simulate some expensive operations on an array
    let mut next = BufferState { buffer: state.buffer.clone() };
    for item in next.buffer.iter_mut() {
        for _ in 0..100 {
            *item += 1;
            *item -= 1;
        }
    }
    (next, x)
}

#[test]
fn test_simple_stateful() {
    let values = (0_u8..16).collect::<Vec<_>>();
    let mapped = drain_stateful(
        VecSource::new(values).stateful_map(CumsumState { total: 0 }, cumsum),
    );

    println!("{:?}", mapped);
}

#[test]
fn test_fib() {
    let values = (0..16).collect::<Vec<_>>();
    let mapped = drain_stateful(
        VecSource::new(values).stateful_map(FibState { prev0: 1, prev1: 0 }, fib),
    );
    println!("{:?}", mapped);
}

#[test]
fn test_reuse_alloc() {
    let values = (0..16).collect::<Vec<_>>();
    let mapped = drain_stateful(VecSource::new(values).stateful_map(
        BufferState { buffer: vec![0; 1000000] },
        arbitrary_vector_stuff,
    ));
    println!("{:?}", mapped);
}

#[test]
fn test_cumsum_exact() {
    let values = (0_u8..16).collect::<Vec<_>>();
    let mapped = drain_stateful(
        VecSource::new(values).stateful_map(CumsumState { total: 0 }, cumsum),
    );
    assert_eq!(
        mapped,
        vec![0, 1, 3, 6, 10, 15, 21, 28, 36, 45, 55, 66, 78, 91, 105, 120]
    );
}

#[test]
fn test_fib_exact() {
    let values = (0..8).collect::<Vec<usize>>();
    let mapped = drain_stateful(
        VecSource::new(values).stateful_map(FibState { prev0: 1, prev1: 0 }, fib),
    );
    assert_eq!(mapped, vec![1, 1, 2, 3, 5, 8, 13, 21]);
}
