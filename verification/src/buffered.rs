//! Bounded read-ahead buffering of a source.

use std::collections::VecDeque;
use vstd::prelude::*;

use crate::source::Source;

verus! {

/// A source that reads up to `max_capacity` entries ahead of its consumer.
///
/// The buffer holds values pulled early from the inner source; an entry of
/// `None` records that the inner source was seen exhausted.
pub struct BufferedIterator<I: Source> {
    inner: I,
    buffer: VecDeque<Option<I::Item>>,
    max_capacity: usize,
    /// How many entries at the front of the buffer hold a value.
    num_values: Ghost<nat>,
}

impl<I: Source> BufferedIterator<I> {
    pub fn new(iter: I, capacity: usize) -> (r: BufferedIterator<I>)
        requires
            iter.inv(),
        ensures
            capacity >= 1 ==> r.inv(),
            r.rem() == iter.rem(),
    {
        let r = BufferedIterator {
            inner: iter,
            buffer: VecDeque::with_capacity(capacity),
            max_capacity: capacity,
            num_values: Ghost(0),
        };
        proof {
            assert(r.rem() =~= iter.rem());
        }
        r
    }

    /// Fills the remaining space in the buffer, stopping early once the
    /// inner source is exhausted.
    fn fill_buffer(&mut self)
        requires
            old(self).inv(),
        ensures
            final(self).inv(),
            final(self).rem() == old(self).rem(),
            final(self).buffer@.len() >= 1,
    {
        let ghost orig_rem = self.rem();
        while self.buffer.len() < self.max_capacity
            invariant
                orig_rem == old(self).rem(),
                self.inv(),
                self.rem() == orig_rem,
            decreases self.max_capacity - self.buffer@.len(),
        {
            let ghost prev = *self;
            let val = self.inner.next();
            let is_end = val.is_none();
            proof {
                if !is_end {
                    // A value was pulled, so the inner source was not
                    // exhausted and the buffer holds no end entry yet.
                    assert(prev.num_values@ == prev.buffer@.len());
                    self.num_values@ = self.num_values@ + 1;
                }
            }
            self.buffer.push_back(val);
            proof {
                assert(self.rem() =~= orig_rem);
            }
            if is_end {
                return ;
            }
        }
    }
}

impl<I: Source> Source for BufferedIterator<I> {
    type Item = I::Item;

    closed spec fn inv(&self) -> bool {
        &&& self.inner.inv()
        &&& self.max_capacity >= 1
        &&& self.num_values@ <= self.buffer@.len()
        &&& forall|k: int| 0 <= k < self.num_values@ ==> self.buffer@[k] is Some
        &&& forall|k: int|
            self.num_values@ <= k < self.buffer@.len() ==> self.buffer@[k] is None
        &&& self.num_values@ < self.buffer@.len() ==> self.inner.rem().len() == 0
    }

    closed spec fn rem(&self) -> Seq<I::Item> {
        Seq::new(self.num_values@, |i: int| self.buffer@[i].unwrap()) + if self.num_values@
            < self.buffer@.len() {
            Seq::empty()
        } else {
            self.inner.rem()
        }
    }

    fn next(&mut self) -> (r: Option<I::Item>) {
        self.fill_buffer();
        let ghost mid = *self;
        let front = self.buffer.pop_front();
        let r = front.unwrap();
        proof {
            if self.num_values@ > 0 {
                self.num_values@ = (self.num_values@ - 1) as nat;
            }
            if mid.rem().len() > 0 {
                assert(r == Some(mid.rem()[0]));
                assert(self.rem() =~= mid.rem().drop_first());
            } else {
                assert(mid.num_values@ == 0);
                assert(self.rem() =~= Seq::<I::Item>::empty());
            }
        }
        r
    }
}

/// Wraps any source in a [`BufferedIterator`].
pub trait IntoBufferedIterator: Source {
    /// Creates a buffered iterator with the given capacity.
    fn buffered(self, capacity: usize) -> (r: BufferedIterator<Self>) where Self: Sized
        requires
            self.inv(),
        ensures
            capacity >= 1 ==> r.inv(),
            r.rem() == self.rem(),
    ;
}

impl<I: Source> IntoBufferedIterator for I {
    fn buffered(self, capacity: usize) -> (r: BufferedIterator<I>) {
        BufferedIterator::new(self, capacity)
    }
}

} // verus!
