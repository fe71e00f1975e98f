//! Single-threaded mapping that carries a working state between elements.

use vstd::prelude::*;

use crate::source::Source;

verus! {

/// A source mapping an inner source through a transformation that passes a
/// persistent working state from each invocation to the next.
pub struct StatefulMapIterator<I, S, F> {
    state: S,
    iter: I,
    func: F,
}

impl<I: Source, S, O, F: Fn(&S, I::Item) -> (S, O)> StatefulMapIterator<I, S, F> {
    pub closed spec fn inv(&self) -> bool {
        &&& self.iter.inv()
        &&& forall|s: S, x: I::Item| #[trigger] call_requires(self.func, (&s, x))
    }

    /// The current working state.
    pub closed spec fn state_value(&self) -> S {
        self.state
    }

    /// The input values not yet mapped.
    pub closed spec fn remaining(&self) -> Seq<I::Item> {
        self.iter.rem()
    }

    /// The transformation applied to each input value.
    pub closed spec fn transform(&self) -> F {
        self.func
    }

    pub fn next(&mut self) -> (r: Option<O>)
        requires
            old(self).inv(),
        ensures
            final(self).inv(),
            final(self).transform() == old(self).transform(),
            old(self).remaining().len() == 0 ==> r is None && final(self).remaining().len() == 0
                && final(self).state_value() == old(self).state_value(),
            old(self).remaining().len() > 0 ==> r is Some && final(self).remaining() == old(
                self,
            ).remaining().drop_first() && call_ensures(
                old(self).transform(),
                (&old(self).state_value(), old(self).remaining()[0]),
                (final(self).state_value(), r.unwrap()),
            ),
    {
        match self.iter.next() {
            None => None,
            Some(x) => {
                let (st, out) = (self.func)(&self.state, x);
                self.state = st;
                Some(out)
            },
        }
    }
}

/// Wraps any source in a [`StatefulMapIterator`].
pub trait IntoStatefulMapIterator: Source {
    fn stateful_map<S, O, F: Fn(&S, Self::Item) -> (S, O)>(self, state: S, func: F) -> (r:
        StatefulMapIterator<Self, S, F>) where Self: Sized
        requires
            self.inv(),
            forall|s: S, x: Self::Item| #[trigger] call_requires(func, (&s, x)),
        ensures
            r.inv(),
            r.remaining() == self.rem(),
            r.state_value() == state,
            r.transform() == func,
    ;
}

impl<I: Source> IntoStatefulMapIterator for I {
    fn stateful_map<S, O, F: Fn(&S, I::Item) -> (S, O)>(self, state: S, func: F) -> (r:
        StatefulMapIterator<I, S, F>) {
        StatefulMapIterator { iter: self, state, func }
    }
}

} // verus!
