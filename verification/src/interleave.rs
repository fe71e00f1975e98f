//! Alternating two sources into one.

use vstd::prelude::*;

use crate::source::Source;

verus! {

/// The alternation of two sequences, starting with `left` when `next_left`
/// holds, cut off as soon as the side whose turn it is has nothing left.
pub open spec fn interleaved<T>(left: Seq<T>, right: Seq<T>, next_left: bool) -> Seq<T>
    decreases left.len() + right.len(),
{
    if next_left {
        if left.len() == 0 {
            Seq::empty()
        } else {
            seq![left[0]] + interleaved(left.drop_first(), right, false)
        }
    } else {
        if right.len() == 0 {
            Seq::empty()
        } else {
            seq![right[0]] + interleaved(left, right.drop_first(), true)
        }
    }
}

/// A source alternating between two inner sources, ending when the side
/// whose turn it is runs out.
pub struct InterleaveIterator<L: Source, R: Source<Item = L::Item>> {
    left: L,
    right: R,
    next_left: bool,
}

impl<L: Source, R: Source<Item = L::Item>> Source for InterleaveIterator<L, R> {
    type Item = L::Item;

    closed spec fn inv(&self) -> bool {
        self.left.inv() && self.right.inv()
    }

    closed spec fn rem(&self) -> Seq<L::Item> {
        interleaved(self.left.rem(), self.right.rem(), self.next_left)
    }

    fn next(&mut self) -> (r: Option<L::Item>) {
        let item = if self.next_left {
            self.left.next()
        } else {
            self.right.next()
        };
        if item.is_some() {
            self.next_left = !self.next_left;
            proof {
                assert(self.rem() =~= old(self).rem().drop_first());
            }
        }
        item
    }
}

/// Wraps a pair of sources in an [`InterleaveIterator`].
pub trait IntoInterleaveIterator: Source {
    /// Interleaves two sources, starting with the left. Keeps going until
    /// the side whose turn it is runs out.
    fn interleave<R: Source<Item = Self::Item>>(self, other: R) -> (r: InterleaveIterator<
        Self,
        R,
    >) where Self: Sized
        requires
            self.inv(),
            other.inv(),
        ensures
            r.inv(),
            r.rem() == interleaved(self.rem(), other.rem(), true),
    ;
}

impl<I: Source> IntoInterleaveIterator for I {
    fn interleave<R: Source<Item = I::Item>>(self, other: R) -> (r: InterleaveIterator<I, R>) {
        InterleaveIterator { left: self, right: other, next_left: true }
    }
}

} // verus!
