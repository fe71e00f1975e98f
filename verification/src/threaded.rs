//! The ordered parallel-map engine: a fixed pool of workers fed in
//! round-robin rotation, with results retrieved in the same rotation, so
//! the output order always equals the source order.

use vstd::arithmetic::div_mod::lemma_add_mod_noop;
use vstd::arithmetic::div_mod::lemma_fundamental_div_mod;
use vstd::arithmetic::div_mod::lemma_mod_bound;
use vstd::arithmetic::div_mod::lemma_mod_multiples_vanish;
use vstd::arithmetic::div_mod::lemma_small_mod;
use vstd::arithmetic::div_mod::lemma_sub_mod_noop;
use vstd::prelude::*;

use crate::source::Source;

verus! {

/// Two residues of distinct numbers less than a modulus apart differ.
pub(crate) proof fn lemma_distinct_mod(a: int, b: int, n: int)
    requires
        n >= 1,
        0 < a - b < n,
    ensures
        a % n != b % n,
{
    lemma_sub_mod_noop(a, b, n);
    lemma_small_mod((a - b) as nat, n as nat);
    lemma_small_mod(0, n as nat);
}

/// One worker of the pool: a single-slot mailbox holding the work item it
/// has been handed, and the transformation it applies.
///
/// In the threaded setting the mailbox stands for the worker thread's
/// inbound channel and `recv` for the rendezvous on its outbound channel.
/// Here the transformation runs at the rendezvous instead of on a thread,
/// which yields the same result for the same hand-offs, since each item's
/// result is a function of that item alone.
pub struct Worker<I, F> {
    slot: Option<Option<I>>,
    func: F,
}

impl<I, F> Worker<I, F> {
    /// The work item in the mailbox: a value, an end-marker, or nothing.
    pub closed spec fn pending(&self) -> Option<Option<I>> {
        self.slot
    }

    /// The transformation this worker applies.
    pub closed spec fn transform(&self) -> F {
        self.func
    }

    pub fn new(func: F) -> (w: Worker<I, F>)
        ensures
            w.pending() is None,
            w.transform() == func,
    {
        Worker { slot: None, func }
    }

    /// Hands the worker a work item; its mailbox must be free.
    pub fn send(&mut self, item: Option<I>)
        requires
            old(self).pending() is None,
        ensures
            final(self).pending() == Some(item),
            final(self).transform() == old(self).transform(),
    {
        self.slot = Some(item);
    }
}

impl<I, O, F: Fn(I) -> O> Worker<I, F> {
    /// Takes the work item out of the mailbox and yields its result: the
    /// transformed value, or an end-marker forwarded untouched.
    pub fn recv(&mut self) -> (r: Option<O>)
        requires
            old(self).pending() is Some,
            old(self).pending().unwrap() is Some ==> call_requires(
                old(self).transform(),
                (old(self).pending().unwrap().unwrap(),),
            ),
        ensures
            final(self).pending() is None,
            final(self).transform() == old(self).transform(),
            old(self).pending().unwrap() is None ==> r is None,
            old(self).pending().unwrap() is Some ==> r is Some && call_ensures(
                old(self).transform(),
                (old(self).pending().unwrap().unwrap(),),
                r.unwrap(),
            ),
    {
        let mut item: Option<Option<I>> = None;
        core::mem::swap(&mut self.slot, &mut item);
        match item {
            Some(Some(x)) => Some((self.func)(x)),
            Some(None) => None,
            // The mailbox is full by the precondition.
            None => None,
        }
    }
}

/// The index of the worker due to yield the next result: the worker
/// `num_processing` dispatch positions behind the next dispatch position
/// `input_index`, in a pool of `num_workers`.
pub fn due_index(num_workers: usize, input_index: usize, num_processing: usize) -> (r: usize)
    requires
        1 <= num_workers <= usize::MAX / 3,
        input_index < num_workers,
        num_processing <= num_workers,
    ensures
        r as int == (2 * num_workers + input_index - num_processing) % (num_workers as int),
        r < num_workers,
{
    (2 * num_workers + input_index - num_processing) % num_workers
}

/// A source mapping an inner source through a transformation spread over
/// a fixed pool of workers: work items are dispatched to the workers in
/// rotation and results retrieved in the same rotation, so the output
/// order equals the source order however the per-item work overlaps.
pub struct ThreadedIterator<I: Source, O, F> {
    inner: I,
    workers: Vec<Worker<I::Item, F>>,
    input_index: usize,
    num_processing: usize,
    /// Every value the source will ever yield, fixed at construction.
    source_seq: Ghost<Seq<I::Item>>,
    /// How many work items have been dispatched to workers.
    num_dispatched: Ghost<nat>,
    /// The values returned to the consumer so far, in order.
    returned: Ghost<Seq<O>>,
}

impl<I: Source, O, F: Fn(I::Item) -> O> ThreadedIterator<I, O, F> {
    /// The pool size, fixed at construction.
    pub closed spec fn pool_size(&self) -> int {
        self.workers@.len() as int
    }

    /// Every value the source will ever yield, in order.
    pub closed spec fn source_items(&self) -> Seq<I::Item> {
        self.source_seq@
    }

    /// The transformation applied to each value.
    pub closed spec fn transform(&self) -> F {
        self.workers@[0].transform()
    }

    /// How many work items have been dispatched to workers.
    pub closed spec fn dispatched(&self) -> int {
        self.num_dispatched@ as int
    }

    /// How many results have been retrieved: the number of `next` calls.
    pub closed spec fn taken(&self) -> int {
        self.dispatched() - self.num_processing
    }

    /// The values returned to the consumer so far, in order.
    pub closed spec fn outputs(&self) -> Seq<O> {
        self.returned@
    }

    /// The work item of dispatch number `k`: the `k`-th source value
    /// while the source lasts, an end-marker from then on.
    pub closed spec fn dispatch_item(&self, k: int) -> Option<I::Item> {
        if k < self.source_items().len() {
            Some(self.source_items()[k])
        } else {
            None
        }
    }

    /// The worker `j` retrieval positions ahead of the next retrieval.
    spec fn worker_at(&self, j: int) -> Worker<I::Item, F> {
        self.workers@[(self.taken() + j) % self.pool_size()]
    }

    spec fn inv_core(&self) -> bool {
        let n = self.pool_size();
        let d = self.dispatched();
        let t = self.taken();
        let len = self.source_items().len() as int;
        &&& 1 <= n <= usize::MAX / 3
        &&& self.inner.inv()
        &&& self.num_processing <= n
        &&& t >= 0
        &&& self.input_index as int == d % n
        &&& forall|w: int|
            0 <= w < n ==> (#[trigger] self.workers@[w]).transform() == self.transform()
        &&& forall|j: int|
            0 <= j < self.num_processing ==> (#[trigger] self.worker_at(j)).pending() == Some(
                self.dispatch_item(t + j),
            )
        &&& forall|j: int|
            self.num_processing <= j < n ==> (#[trigger] self.worker_at(j)).pending() is None
        &&& if d <= len {
            self.inner.rem() == self.source_items().skip(d)
        } else {
            self.inner.rem().len() == 0
        }
        &&& forall|k: int|
            t <= k < len ==> call_requires(self.transform(), (#[trigger] self.source_items()[k],))
        &&& self.outputs().len() == if t <= len {
            t
        } else {
            len
        }
        &&& forall|j: int|
            0 <= j < self.outputs().len() ==> call_ensures(
                self.transform(),
                (self.source_items()[j],),
                #[trigger] self.outputs()[j],
            )
    }

    /// Between calls the pool is saturated: every worker holds exactly
    /// one work item awaiting retrieval.
    pub closed spec fn inv(&self) -> bool {
        self.inv_core() && self.num_processing as int == self.pool_size()
    }

    pub fn new(iter: I, func: F, num_workers: usize) -> (r: Self) where F: Copy
        requires
            iter.inv(),
            1 <= num_workers <= usize::MAX / 3,
            forall|k: int|
                0 <= k < iter.rem().len() ==> call_requires(func, (#[trigger] iter.rem()[k],)),
        ensures
            r.inv(),
            r.pool_size() == num_workers,
            r.source_items() == iter.rem(),
            r.transform() == func,
            r.taken() == 0,
            r.outputs() == Seq::<O>::empty(),
    {
        let ghost src_seq = iter.rem();
        let mut workers: Vec<Worker<I::Item, F>> = Vec::new();
        while workers.len() < num_workers
            invariant
                workers@.len() <= num_workers,
                forall|w: int|
                    0 <= w < workers@.len() ==> (#[trigger] workers@[w]).pending() is None
                        && workers@[w].transform() == func,
            decreases num_workers - workers@.len(),
        {
            workers.push(Worker::new(func));
        }
        let mut new_iter = ThreadedIterator {
            inner: iter,
            workers,
            input_index: 0,
            num_processing: 0,
            source_seq: Ghost(src_seq),
            num_dispatched: Ghost(0),
            returned: Ghost(Seq::empty()),
        };
        proof {
            let n = new_iter.pool_size();
            lemma_small_mod(0, n as nat);
            assert forall|j: int| 0 <= j < n implies (#[trigger] new_iter.worker_at(
                j,
            )).pending() is None by {
                lemma_small_mod(j as nat, n as nat);
            }
            assert(new_iter.inner.rem() =~= new_iter.source_items().skip(0));
        }
        new_iter.fill_buffer();
        new_iter
    }

    /// Fills the remaining space in the worker pool: pulls from the
    /// source (or takes an end-marker once it is exhausted), hands the
    /// item to the worker at `input_index`, and advances the rotation,
    /// until every worker holds one item. The worker due for the next
    /// item never holds one already, so the hand-off never blocks.
    fn fill_buffer(&mut self)
        requires
            old(self).inv_core(),
        ensures
            final(self).inv(),
            final(self).pool_size() == old(self).pool_size(),
            final(self).source_items() == old(self).source_items(),
            final(self).transform() == old(self).transform(),
            final(self).taken() == old(self).taken(),
            final(self).outputs() == old(self).outputs(),
    {
        while self.num_processing < self.workers.len()
            invariant
                self.inv_core(),
                self.pool_size() == old(self).pool_size(),
                self.source_items() == old(self).source_items(),
                self.transform() == old(self).transform(),
                self.taken() == old(self).taken(),
                self.outputs() == old(self).outputs(),
            decreases self.workers@.len() - self.num_processing,
        {
            let ghost prev = *self;
            let ghost n = self.pool_size();
            let ghost d = self.dispatched();
            let ghost t = self.taken();
            let val = self.inner.next();
            proof {
                if d < self.source_items().len() {
                    assert(prev.inner.rem()[0] == self.source_items()[d]);
                    assert(self.inner.rem() =~= self.source_items().skip(d + 1));
                }
                assert(val == prev.dispatch_item(d));
            }
            let ii = self.input_index;
            let w = &mut self.workers[ii];
            proof {
                // The dispatch target is the worker `num_processing`
                // positions ahead of the next retrieval, which holds no
                // item while the pool is not yet full.
                assert(prev.worker_at(prev.num_processing as int).pending() is None);
            }
            w.send(val);
            self.input_index = (ii + 1) % self.workers.len();
            self.num_processing = self.num_processing + 1;
            proof {
                self.num_dispatched@ = self.num_dispatched@ + 1;
                let p = prev.num_processing as int;
                // input_index advances with the dispatch count, modulo n.
                if n > 1 {
                    lemma_small_mod(1, n as nat);
                    lemma_add_mod_noop(d, 1, n);
                } else {
                    lemma_mod_multiples_vanish(ii as int + 1, 0, 1);
                    lemma_mod_multiples_vanish(d + 1, 0, 1);
                }
                assert(self.input_index as int == (d + 1) % n);
                lemma_mod_bound(t + p, n);
                assert forall|j: int|
                    0 <= j < self.num_processing implies (#[trigger] self.worker_at(j)).pending()
                    == Some(self.dispatch_item(t + j)) by {
                    lemma_mod_bound(t + j, n);
                    if j < p {
                        lemma_distinct_mod(t + p, t + j, n);
                        assert(self.worker_at(j) == prev.worker_at(j));
                    } else {
                        assert(j == p);
                    }
                }
                assert forall|j: int|
                    self.num_processing <= j < n implies (#[trigger] self.worker_at(
                    j,
                )).pending() is None by {
                    lemma_mod_bound(t + j, n);
                    lemma_distinct_mod(t + j, t + p, n);
                    assert(self.worker_at(j) == prev.worker_at(j));
                }
                assert(self.inv_core());
            }
        }
    }

    /// The position of the worker holding the oldest result not yet
    /// retrieved.
    fn output_index(&self) -> (r: usize)
        requires
            self.inv_core(),
        ensures
            r as int == self.taken() % self.pool_size(),
            r < self.workers@.len(),
    {
        let r = due_index(self.workers.len(), self.input_index, self.num_processing);
        proof {
            let n = self.pool_size();
            let d = self.dispatched();
            let t = self.taken();
            let p = self.num_processing as int;
            let q = d / n;
            lemma_fundamental_div_mod(d, n);
            assert(2 * n + (d % n) - p == n * (2 - q) + t) by (nonlinear_arith)
                requires
                    d == n * q + d % n,
                    p == d - t,
            ;
            lemma_mod_multiples_vanish(2 - q, t, n);
        }
        r
    }

    pub fn next(&mut self) -> (r: Option<O>)
        requires
            old(self).inv(),
        ensures
            final(self).inv(),
            final(self).pool_size() == old(self).pool_size(),
            final(self).source_items() == old(self).source_items(),
            final(self).transform() == old(self).transform(),
            final(self).taken() == old(self).taken() + 1,
            r is Some <==> old(self).taken() < old(self).source_items().len(),
            r is Some ==> call_ensures(
                old(self).transform(),
                (old(self).source_items()[old(self).taken()],),
                r.unwrap(),
            ),
            final(self).outputs() == if r is Some {
                old(self).outputs().push(r.unwrap())
            } else {
                old(self).outputs()
            },
    {
        let ghost prev = *self;
        let ghost n = self.pool_size();
        let ghost t = self.taken();
        let oi = self.output_index();
        proof {
            // The due worker is the one holding the oldest item.
            assert(prev.worker_at(0).pending() == Some(prev.dispatch_item(t)));
        }
        let w = &mut self.workers[oi];
        let val = w.recv();
        self.num_processing = self.num_processing - 1;
        proof {
            if val is Some {
                self.returned@ = self.returned@.push(val.unwrap());
            }
            lemma_mod_bound(t, n);
            assert forall|j: int|
                0 <= j < self.num_processing implies (#[trigger] self.worker_at(j)).pending()
                == Some(self.dispatch_item(t + 1 + j)) by {
                lemma_mod_bound(t + 1 + j, n);
                lemma_distinct_mod(t + 1 + j, t, n);
                assert(self.worker_at(j) == prev.worker_at(j + 1));
            }
            assert forall|j: int|
                self.num_processing <= j < n implies (#[trigger] self.worker_at(
                j,
            )).pending() is None by {
                lemma_mod_bound(t + 1 + j, n);
                if j < n - 1 {
                    lemma_distinct_mod(t + 1 + j, t, n);
                    assert(self.worker_at(j) == prev.worker_at(j + 1));
                } else {
                    // This is the due worker itself, just emptied by the
                    // retrieval: one full rotation behind the next one.
                    lemma_mod_multiples_vanish(1, t, n);
                }
            }
            assert(self.inv_core());
        }
        self.fill_buffer();
        val
    }

    /// The pool size, fixed at construction.
    pub fn num_workers(&self) -> (r: usize)
        ensures
            r as int == self.pool_size(),
    {
        self.workers.len()
    }
}

/// For a pure total transformation — one whose every possible result on
/// an input `x` equals `m(x)` — the values returned so far are exactly
/// the sequential map of the source prefix of that length: concurrency
/// never reorders or alters the output.
pub proof fn lemma_outputs_are_sequential_map<I: Source, O, F: Fn(I::Item) -> O>(
    it: &ThreadedIterator<I, O, F>,
    m: spec_fn(I::Item) -> O,
)
    requires
        it.inv(),
        forall|x: I::Item, y: O| #[trigger] call_ensures(it.transform(), (x,), y) ==> y == m(x),
    ensures
        it.outputs() == it.source_items().take(it.outputs().len() as int).map_values(m),
{
    assert(it.outputs() =~= it.source_items().take(it.outputs().len() as int).map_values(m));
}

/// Over an empty source, every work item ever dispatched is an
/// end-marker: no worker ever receives a real value.
pub proof fn lemma_empty_source_dispatches_no_value<I: Source, O, F: Fn(I::Item) -> O>(
    it: &ThreadedIterator<I, O, F>,
)
    requires
        it.inv(),
        it.source_items().len() == 0,
    ensures
        forall|k: int| 0 <= k < it.dispatched() ==> (#[trigger] it.dispatch_item(k)) is None,
{
}

/// Between calls the engine runs exactly one work item per worker ahead
/// of its consumer — the single-slot hand-offs bound the look-ahead to
/// the pool size — and work items carry a source value while the source
/// lasts, an end-marker from then on.
pub proof fn lemma_bounded_lookahead<I: Source, O, F: Fn(I::Item) -> O>(
    it: &ThreadedIterator<I, O, F>,
)
    requires
        it.inv(),
    ensures
        it.dispatched() == it.taken() + it.pool_size(),
        forall|k: int|
            0 <= k < it.dispatched() ==> ((#[trigger] it.dispatch_item(k)) is Some <==> k
                < it.source_items().len()),
{
}

/// Wraps any source in a [`ThreadedIterator`].
pub trait IntoThreadedIterator: Source {
    /// Creates an ordered parallel-map source: a pool of `num_workers`
    /// workers applies `func` to the values of this source, and the
    /// results come back in source order.
    fn par_map<O, F: Fn(Self::Item) -> O + Copy>(self, func: F, num_workers: usize) -> (r:
        ThreadedIterator<Self, O, F>) where Self: Sized
        requires
            self.inv(),
            1 <= num_workers <= usize::MAX / 3,
            forall|k: int|
                0 <= k < self.rem().len() ==> call_requires(func, (#[trigger] self.rem()[k],)),
        ensures
            r.inv(),
            r.pool_size() == num_workers,
            r.source_items() == self.rem(),
            r.transform() == func,
            r.taken() == 0,
            r.outputs() == Seq::<O>::empty(),
    ;
}

impl<I: Source> IntoThreadedIterator for I {
    fn par_map<O, F: Fn(I::Item) -> O + Copy>(self, func: F, num_workers: usize) -> (r:
        ThreadedIterator<I, O, F>) {
        ThreadedIterator::new(self, func, num_workers)
    }
}

} // verus!
