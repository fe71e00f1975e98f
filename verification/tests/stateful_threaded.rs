use parmap::source::VecSource;
use parmap::stateful_threaded::IntoStatefulThreadedIterator;
use parmap::stateful_threaded::StatefulWorker;

#[derive(Clone)]
struct CumsumState {
    total: u8,
}

fn cumsum(state: &CumsumState, x: u8) -> (CumsumState, u8) {
    let total = state.total + x;
    (CumsumState { total }, total)
}

#[derive(Clone)]
struct WideCumsumState {
    total: usize,
}

fn wide_cumsum(state: &WideCumsumState, x: usize) -> (WideCumsumState, usize) {
    let total = state.total + x;
    (WideCumsumState { total }, total)
}

#[test]
fn stateful_threaded_test_worker() {
    let mut pool = StatefulWorker::new(&cumsum, CumsumState { total: 0 });
    let values = (0..16).collect::<Vec<u8>>();
    for x in values {
        pool.send(Some(x));
        let res = pool.recv();
        println!("{:?}", res);
    }
}

#[test]
fn test_iterator() {
    let values = (0..128).collect::<Vec<usize>>();

    let mut it = VecSource::new(values).stateful_par_map(
        wide_cumsum,
        WideCumsumState { total: 0 },
        4,
    );
    let mut mapped: Vec<usize> = Vec::new();
    while let Some(x) = it.next() {
        mapped.push(x);
    }
    println!("{:?}", mapped);
}

#[derive(Clone)]
struct BufferState {
    buffer: Vec<u8>,
}

fn arbitrary_vector_stuff(state: &BufferState, x: u8) -> (BufferState, u8) {
    // Simulate some expensive operations on an array
    let mut next = BufferState { buffer: state.buffer.clone() };
    for item in next.buffer.iter_mut() {
        for _ in 0..100 {
            *item += 1;
            *item -= 1;
        }
    }
    (next, x)
}

#[test]
fn test_iterator_array() {
    let values = (0..128).collect::<Vec<u8>>();
    let mut it = VecSource::new(values).stateful_par_map(
        arbitrary_vector_stuff,
        BufferState { buffer: vec![0; 1000000] },
        4,
    );
    let mut _mapped: Vec<u8> = Vec::new();
    while let Some(x) = it.next() {
        _mapped.push(x);
    }
}

#[test]
fn test_state_isolation() {
    let src = VecSource::new(vec![1u8, 2, 3, 4]);
    let mut it = src.stateful_par_map(cumsum, CumsumState { total: 0 }, 2);
    let mut out: Vec<u8> = Vec::new();
    while let Some(x) = it.next() {
        out.push(x);
    }
    // Worker one saw 1 and 3, worker two saw 2 and 4: each running sum
    // grows from that worker's own values alone.
    assert_eq!(out, [1, 2, 4, 6]);
}

#[test]
fn test_stateful_empty_source() {
    let src = VecSource::new(Vec::<u8>::new());
    let mut it = src.stateful_par_map(cumsum, CumsumState { total: 0 }, 2);
    assert_eq!(it.next(), None);
}

#[test]
fn test_stateful_pool_size_is_fixed() {
    let src = VecSource::new(vec![1u8, 2, 3]);
    let mut it = src.stateful_par_map(cumsum, CumsumState { total: 0 }, 3);
    assert_eq!(it.num_workers(), 3);
    assert_eq!(it.next(), Some(1));
    assert_eq!(it.num_workers(), 3);
}
