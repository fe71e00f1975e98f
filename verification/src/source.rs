//! The pull contract every adapter consumes and offers: produce the next
//! value, or signal end of sequence.

use vstd::prelude::*;

verus! {

/// A lazy producer of values, retrieved one at a time on demand.
///
/// `rem()` is the sequence of values the source will still yield, in order.
/// A source is fused: once `rem()` is empty, `next` returns `None` forever.
pub trait Source {
    type Item;

    /// Well-formedness; `next` may only be called on a well-formed source.
    spec fn inv(&self) -> bool;

    /// The values this source will still yield, in order.
    spec fn rem(&self) -> Seq<Self::Item>;

    fn next(&mut self) -> (r: Option<Self::Item>)
        requires
            old(self).inv(),
        ensures
            final(self).inv(),
            old(self).rem().len() > 0 ==> r == Some(old(self).rem()[0]) && final(self).rem()
                == old(self).rem().drop_first(),
            old(self).rem().len() == 0 ==> r is None && final(self).rem().len() == 0,
    ;
}

/// A source that yields the elements of a vector in order.
pub struct VecSource<T> {
    /// The values not yet yielded, kept in reverse so the next one is last.
    items: Vec<T>,
}

impl<T> VecSource<T> {
    pub fn new(values: Vec<T>) -> (r: VecSource<T>)
        ensures
            r.inv(),
            r.rem() == values@,
    {
        let ghost orig = values@;
        let mut values = values;
        let mut items: Vec<T> = Vec::new();
        while values.len() > 0
            invariant
                values@.len() <= orig.len(),
                values@ == orig.take(values@.len() as int),
                items@ == orig.skip(values@.len() as int).reverse(),
            decreases values@.len(),
        {
            let ghost m = values@.len() as int;
            let x = values.pop().unwrap();
            items.push(x);
            proof {
                assert(values@ =~= orig.take(m - 1));
                assert(items@ =~= orig.skip(m - 1).reverse());
            }
        }
        proof {
            assert(items@.reverse() =~= orig);
        }
        VecSource { items }
    }
}

impl<T> Source for VecSource<T> {
    type Item = T;

    closed spec fn inv(&self) -> bool {
        true
    }

    closed spec fn rem(&self) -> Seq<T> {
        self.items@.reverse()
    }

    fn next(&mut self) -> (r: Option<T>) {
        let r = self.items.pop();
        proof {
            if old(self).items@.len() > 0 {
                assert(self.items@.reverse() =~= old(self).items@.reverse().drop_first());
            }
        }
        r
    }
}

} // verus!
