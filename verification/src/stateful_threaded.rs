//! The stateful variant of the ordered parallel-map engine: each worker
//! owns a persistent working state, never shared with any other worker,
//! passed to the transformation on every value it processes.

use vstd::arithmetic::div_mod::lemma_add_mod_noop;
use vstd::arithmetic::div_mod::lemma_fundamental_div_mod;
use vstd::arithmetic::div_mod::lemma_mod_bound;
use vstd::arithmetic::div_mod::lemma_mod_multiples_vanish;
use vstd::arithmetic::div_mod::lemma_small_mod;
use vstd::prelude::*;

use crate::source::Source;
use crate::threaded::due_index;
use crate::threaded::lemma_distinct_mod;

verus! {

/// One worker of the stateful pool: a single-slot mailbox, the
/// transformation, and this worker's exclusively-owned working state,
/// persistent across every value it processes.
///
/// As in [`crate::threaded::Worker`], the mailbox stands for the worker
/// thread's inbound channel and `recv` for the rendezvous on its
/// outbound channel; the transformation runs at the rendezvous. The
/// result and the state after it depend only on the hand-offs made, so
/// they equal those of the thread interleaving.
pub struct StatefulWorker<I, S, F> {
    slot: Option<Option<I>>,
    state: S,
    func: F,
}

impl<I, S, F> StatefulWorker<I, S, F> {
    /// The work item in the mailbox: a value, an end-marker, or nothing.
    pub closed spec fn pending(&self) -> Option<Option<I>> {
        self.slot
    }

    /// The transformation this worker applies.
    pub closed spec fn transform(&self) -> F {
        self.func
    }

    /// This worker's working state, owned by it alone.
    pub closed spec fn state_value(&self) -> S {
        self.state
    }

    pub fn new(func: F, state: S) -> (w: StatefulWorker<I, S, F>)
        ensures
            w.pending() is None,
            w.transform() == func,
            w.state_value() == state,
    {
        StatefulWorker { slot: None, state, func }
    }

    /// Hands the worker a work item; its mailbox must be free.
    pub fn send(&mut self, item: Option<I>)
        requires
            old(self).pending() is None,
        ensures
            final(self).pending() == Some(item),
            final(self).transform() == old(self).transform(),
            final(self).state_value() == old(self).state_value(),
    {
        self.slot = Some(item);
    }
}

impl<I, S, O, F: Fn(&S, I) -> (S, O)> StatefulWorker<I, S, F> {
    /// Takes the work item out of the mailbox and yields its result: the
    /// value transformed against this worker's own state, which moves to
    /// the state the transformation returned, or an end-marker forwarded
    /// with the state untouched.
    pub fn recv(&mut self) -> (r: Option<O>)
        requires
            old(self).pending() is Some,
            old(self).pending().unwrap() is Some ==> call_requires(
                old(self).transform(),
                (&old(self).state_value(), old(self).pending().unwrap().unwrap()),
            ),
        ensures
            final(self).pending() is None,
            final(self).transform() == old(self).transform(),
            old(self).pending().unwrap() is None ==> r is None && final(self).state_value() == old(
                self,
            ).state_value(),
            old(self).pending().unwrap() is Some ==> r is Some && call_ensures(
                old(self).transform(),
                (&old(self).state_value(), old(self).pending().unwrap().unwrap()),
                (final(self).state_value(), r.unwrap()),
            ),
    {
        let mut item: Option<Option<I>> = None;
        core::mem::swap(&mut self.slot, &mut item);
        match item {
            Some(Some(x)) => {
                let (st, out) = (self.func)(&self.state, x);
                self.state = st;
                Some(out)
            },
            Some(None) => None,
            // The mailbox is full by the precondition.
            None => None,
        }
    }
}

/// The stateful ordered parallel-map source: work items are dispatched
/// to a fixed pool of state-owning workers in rotation and results
/// retrieved in the same rotation, so the output order equals the source
/// order, and each value is transformed against the state of the one
/// worker it was dispatched to.
pub struct ThreadedStatefulIterator<I: Source, O, S, F> {
    inner: I,
    workers: Vec<StatefulWorker<I::Item, S, F>>,
    input_index: usize,
    num_processing: usize,
    /// Every value the source will ever yield, fixed at construction.
    source_seq: Ghost<Seq<I::Item>>,
    /// How many work items have been dispatched to workers.
    num_dispatched: Ghost<nat>,
    /// Pins the output type of the transformation.
    output: core::marker::PhantomData<O>,
}

impl<I: Source, O, S, F: Fn(&S, I::Item) -> (S, O)> ThreadedStatefulIterator<I, O, S, F> {
    /// The pool size, fixed at construction.
    pub closed spec fn pool_size(&self) -> int {
        self.workers@.len() as int
    }

    /// Every value the source will ever yield, in order.
    pub closed spec fn source_items(&self) -> Seq<I::Item> {
        self.source_seq@
    }

    /// The transformation applied to each value.
    pub closed spec fn transform(&self) -> F {
        self.workers@[0].transform()
    }

    /// How many work items have been dispatched to workers.
    pub closed spec fn dispatched(&self) -> int {
        self.num_dispatched@ as int
    }

    /// How many results have been retrieved: the number of `next` calls.
    pub closed spec fn taken(&self) -> int {
        self.dispatched() - self.num_processing
    }

    /// The working state owned by worker `w`.
    pub closed spec fn worker_state(&self, w: int) -> S {
        self.workers@[w].state_value()
    }

    /// The work item of dispatch number `k`: the `k`-th source value
    /// while the source lasts, an end-marker from then on.
    pub closed spec fn dispatch_item(&self, k: int) -> Option<I::Item> {
        if k < self.source_items().len() {
            Some(self.source_items()[k])
        } else {
            None
        }
    }

    /// The worker `j` retrieval positions ahead of the next retrieval.
    spec fn worker_at(&self, j: int) -> StatefulWorker<I::Item, S, F> {
        self.workers@[(self.taken() + j) % self.pool_size()]
    }

    spec fn inv_core(&self) -> bool {
        let n = self.pool_size();
        let d = self.dispatched();
        let t = self.taken();
        let len = self.source_items().len() as int;
        &&& 1 <= n <= usize::MAX / 3
        &&& self.inner.inv()
        &&& self.num_processing <= n
        &&& t >= 0
        &&& self.input_index as int == d % n
        &&& forall|w: int|
            0 <= w < n ==> (#[trigger] self.workers@[w]).transform() == self.transform()
        &&& forall|j: int|
            0 <= j < self.num_processing ==> (#[trigger] self.worker_at(j)).pending() == Some(
                self.dispatch_item(t + j),
            )
        &&& forall|j: int|
            self.num_processing <= j < n ==> (#[trigger] self.worker_at(j)).pending() is None
        &&& if d <= len {
            self.inner.rem() == self.source_items().skip(d)
        } else {
            self.inner.rem().len() == 0
        }
        &&& forall|s: S, x: I::Item| #[trigger] call_requires(self.transform(), (&s, x))
    }

    /// Between calls the pool is saturated: every worker holds exactly
    /// one work item awaiting retrieval.
    pub closed spec fn inv(&self) -> bool {
        self.inv_core() && self.num_processing as int == self.pool_size()
    }

    pub fn new(iter: I, func: F, state: S, num_workers: usize) -> (r: Self) where
        F: Copy,
        S: Clone,

        requires
            iter.inv(),
            1 <= num_workers <= usize::MAX / 3,
            forall|s: S, x: I::Item| #[trigger] call_requires(func, (&s, x)),
        ensures
            r.inv(),
            r.pool_size() == num_workers,
            r.source_items() == iter.rem(),
            r.transform() == func,
            r.taken() == 0,
            forall|w: int| 0 <= w < num_workers ==> cloned::<S>(state, #[trigger] r.worker_state(w)),
    {
        let ghost src_seq = iter.rem();
        let mut workers: Vec<StatefulWorker<I::Item, S, F>> = Vec::new();
        while workers.len() < num_workers
            invariant
                workers@.len() <= num_workers,
                forall|w: int|
                    0 <= w < workers@.len() ==> (#[trigger] workers@[w]).pending() is None
                        && workers@[w].transform() == func && cloned::<S>(
                        state,
                        workers@[w].state_value(),
                    ),
            decreases num_workers - workers@.len(),
        {
            workers.push(StatefulWorker::new(func, state.clone()));
        }
        let mut new_iter = ThreadedStatefulIterator {
            inner: iter,
            workers,
            input_index: 0,
            num_processing: 0,
            source_seq: Ghost(src_seq),
            num_dispatched: Ghost(0),
            output: core::marker::PhantomData,
        };
        proof {
            let n = new_iter.pool_size();
            lemma_small_mod(0, n as nat);
            assert forall|j: int| 0 <= j < n implies (#[trigger] new_iter.worker_at(
                j,
            )).pending() is None by {
                lemma_small_mod(j as nat, n as nat);
            }
            assert(new_iter.inner.rem() =~= new_iter.source_items().skip(0));
        }
        new_iter.fill_buffer();
        new_iter
    }

    /// Fills the remaining space in the worker pool: pulls from the
    /// source (or takes an end-marker once it is exhausted), hands the
    /// item to the worker at `input_index`, and advances the rotation,
    /// until every worker holds one item. The worker due for the next
    /// item never holds one already, so the hand-off never blocks.
    fn fill_buffer(&mut self)
        requires
            old(self).inv_core(),
        ensures
            final(self).inv(),
            final(self).pool_size() == old(self).pool_size(),
            final(self).source_items() == old(self).source_items(),
            final(self).transform() == old(self).transform(),
            final(self).taken() == old(self).taken(),
            forall|w: int|
                0 <= w < old(self).pool_size() ==> final(self).worker_state(w) == old(
                    self,
                ).worker_state(w),
    {
        while self.num_processing < self.workers.len()
            invariant
                self.inv_core(),
                self.pool_size() == old(self).pool_size(),
                self.source_items() == old(self).source_items(),
                self.transform() == old(self).transform(),
                self.taken() == old(self).taken(),
                forall|w: int|
                    0 <= w < old(self).pool_size() ==> self.worker_state(w) == old(
                        self,
                    ).worker_state(w),
            decreases self.workers@.len() - self.num_processing,
        {
            let ghost prev = *self;
            let ghost n = self.pool_size();
            let ghost d = self.dispatched();
            let ghost t = self.taken();
            let val = self.inner.next();
            proof {
                if d < self.source_items().len() {
                    assert(prev.inner.rem()[0] == self.source_items()[d]);
                    assert(self.inner.rem() =~= self.source_items().skip(d + 1));
                }
                assert(val == prev.dispatch_item(d));
            }
            let ii = self.input_index;
            let w = &mut self.workers[ii];
            proof {
                // The dispatch target is the worker `num_processing`
                // positions ahead of the next retrieval, which holds no
                // item while the pool is not yet full.
                assert(prev.worker_at(prev.num_processing as int).pending() is None);
            }
            w.send(val);
            self.input_index = (ii + 1) % self.workers.len();
            self.num_processing = self.num_processing + 1;
            proof {
                self.num_dispatched@ = self.num_dispatched@ + 1;
                let p = prev.num_processing as int;
                if n > 1 {
                    lemma_small_mod(1, n as nat);
                    lemma_add_mod_noop(d, 1, n);
                } else {
                    lemma_mod_multiples_vanish(ii as int + 1, 0, 1);
                    lemma_mod_multiples_vanish(d + 1, 0, 1);
                }
                assert(self.input_index as int == (d + 1) % n);
                lemma_mod_bound(t + p, n);
                assert forall|j: int|
                    0 <= j < self.num_processing implies (#[trigger] self.worker_at(j)).pending()
                    == Some(self.dispatch_item(t + j)) by {
                    lemma_mod_bound(t + j, n);
                    if j < p {
                        lemma_distinct_mod(t + p, t + j, n);
                        assert(self.worker_at(j) == prev.worker_at(j));
                    } else {
                        assert(j == p);
                    }
                }
                assert forall|j: int|
                    self.num_processing <= j < n implies (#[trigger] self.worker_at(
                    j,
                )).pending() is None by {
                    lemma_mod_bound(t + j, n);
                    lemma_distinct_mod(t + j, t + p, n);
                    assert(self.worker_at(j) == prev.worker_at(j));
                }
                assert(self.inv_core());
            }
        }
    }

    /// The position of the worker holding the oldest result not yet
    /// retrieved.
    fn output_index(&self) -> (r: usize)
        requires
            self.inv_core(),
        ensures
            r as int == self.taken() % self.pool_size(),
            r < self.workers@.len(),
    {
        let r = due_index(self.workers.len(), self.input_index, self.num_processing);
        proof {
            let n = self.pool_size();
            let d = self.dispatched();
            let t = self.taken();
            let p = self.num_processing as int;
            let q = d / n;
            lemma_fundamental_div_mod(d, n);
            assert(2 * n + (d % n) - p == n * (2 - q) + t) by (nonlinear_arith)
                requires
                    d == n * q + d % n,
                    p == d - t,
            ;
            lemma_mod_multiples_vanish(2 - q, t, n);
        }
        r
    }

    pub fn next(&mut self) -> (r: Option<O>)
        requires
            old(self).inv(),
        ensures
            final(self).inv(),
            final(self).pool_size() == old(self).pool_size(),
            final(self).source_items() == old(self).source_items(),
            final(self).transform() == old(self).transform(),
            final(self).taken() == old(self).taken() + 1,
            r is Some <==> old(self).taken() < old(self).source_items().len(),
            // The retrieved value is the next source value transformed
            // against the state of the one worker it was dispatched to,
            // whose state moves to the state the transformation returned.
            r is Some ==> call_ensures(
                old(self).transform(),
                (
                    &old(self).worker_state(old(self).taken() % old(self).pool_size()),
                    old(self).source_items()[old(self).taken()],
                ),
                (final(self).worker_state(old(self).taken() % old(self).pool_size()), r.unwrap()),
            ),
            r is None ==> final(self).worker_state(old(self).taken() % old(self).pool_size())
                == old(self).worker_state(old(self).taken() % old(self).pool_size()),
            // No other worker's state is touched: states never mix.
            forall|w: int|
                0 <= w < old(self).pool_size() && w != old(self).taken() % old(self).pool_size()
                    ==> final(self).worker_state(w) == old(self).worker_state(w),
    {
        let ghost prev = *self;
        let ghost n = self.pool_size();
        let ghost t = self.taken();
        let oi = self.output_index();
        proof {
            // The due worker is the one holding the oldest item.
            assert(prev.worker_at(0).pending() == Some(prev.dispatch_item(t)));
        }
        let w = &mut self.workers[oi];
        let val = w.recv();
        self.num_processing = self.num_processing - 1;
        proof {
            lemma_mod_bound(t, n);
            assert forall|j: int|
                0 <= j < self.num_processing implies (#[trigger] self.worker_at(j)).pending()
                == Some(self.dispatch_item(t + 1 + j)) by {
                lemma_mod_bound(t + 1 + j, n);
                lemma_distinct_mod(t + 1 + j, t, n);
                assert(self.worker_at(j) == prev.worker_at(j + 1));
            }
            assert forall|j: int|
                self.num_processing <= j < n implies (#[trigger] self.worker_at(
                j,
            )).pending() is None by {
                lemma_mod_bound(t + 1 + j, n);
                if j < n - 1 {
                    lemma_distinct_mod(t + 1 + j, t, n);
                    assert(self.worker_at(j) == prev.worker_at(j + 1));
                } else {
                    // This is the due worker itself, just emptied by the
                    // retrieval: one full rotation behind the next one.
                    lemma_mod_multiples_vanish(1, t, n);
                }
            }
            assert(self.inv_core());
        }
        self.fill_buffer();
        val
    }

    /// The pool size, fixed at construction.
    pub fn num_workers(&self) -> (r: usize)
        ensures
            r as int == self.pool_size(),
    {
        self.workers.len()
    }
}

/// Wraps any source in a [`ThreadedStatefulIterator`].
pub trait IntoStatefulThreadedIterator: Source {
    /// Creates a stateful ordered parallel-map source: a pool of
    /// `num_workers` workers applies `func` to the values of this source,
    /// each worker against its own copy of `state`, and the results come
    /// back in source order. The state is meant as working memory for
    /// each worker; values a worker folds into it are seen again only by
    /// the values dispatched to that same worker.
    fn stateful_par_map<O, S: Clone, F: Fn(&S, Self::Item) -> (S, O) + Copy>(
        self,
        func: F,
        state: S,
        num_workers: usize,
    ) -> (r: ThreadedStatefulIterator<Self, O, S, F>) where Self: Sized
        requires
            self.inv(),
            1 <= num_workers <= usize::MAX / 3,
            forall|s: S, x: Self::Item| #[trigger] call_requires(func, (&s, x)),
        ensures
            r.inv(),
            r.pool_size() == num_workers,
            r.source_items() == self.rem(),
            r.transform() == func,
            r.taken() == 0,
            forall|w: int| 0 <= w < num_workers ==> cloned::<S>(state, #[trigger] r.worker_state(w)),
    ;
}

impl<I: Source> IntoStatefulThreadedIterator for I {
    fn stateful_par_map<O, S: Clone, F: Fn(&S, I::Item) -> (S, O) + Copy>(
        self,
        func: F,
        state: S,
        num_workers: usize,
    ) -> (r: ThreadedStatefulIterator<I, O, S, F>) {
        ThreadedStatefulIterator::new(self, func, state, num_workers)
    }
}

} // verus!
