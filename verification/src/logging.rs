//! Discarding failed results from a source of results.

use vstd::prelude::*;

use crate::source::Source;

verus! {

/// The payloads of the `Ok` entries of a sequence of results, in order.
pub open spec fn ok_values<T, E>(s: Seq<Result<T, E>>) -> Seq<T>
    decreases s.len(),
{
    if s.len() == 0 {
        Seq::empty()
    } else {
        let rest = ok_values(s.drop_first());
        match s[0] {
            Ok(v) => seq![v] + rest,
            Err(_) => rest,
        }
    }
}

/// The payloads of the `Err` entries of a sequence of results, in order.
pub open spec fn err_values<T, E>(s: Seq<Result<T, E>>) -> Seq<E>
    decreases s.len(),
{
    if s.len() == 0 {
        Seq::empty()
    } else {
        let rest = err_values(s.drop_first());
        match s[0] {
            Ok(_) => rest,
            Err(e) => seq![e] + rest,
        }
    }
}

/// A source that drops the failed results of an inner source of results
/// and unwraps the successful ones.
pub struct LoggingIterator<I: Source> {
    inner: I,
}

impl<T, E, I: Source<Item = Result<T, E>>> Source for LoggingIterator<I> {
    type Item = T;

    closed spec fn inv(&self) -> bool {
        self.inner.inv()
    }

    closed spec fn rem(&self) -> Seq<T> {
        ok_values(self.inner.rem())
    }

    fn next(&mut self) -> (r: Option<T>) {
        loop
            invariant
                self.inner.inv(),
                ok_values(self.inner.rem()) == ok_values(old(self).inner.rem()),
            decreases self.inner.rem().len(),
        {
            let ghost prev_rem = self.inner.rem();
            match self.inner.next() {
                None => {
                    return None;
                },
                Some(result) => match result {
                    Ok(val) => {
                        proof {
                            assert(ok_values(prev_rem) == seq![val] + ok_values(
                                prev_rem.drop_first(),
                            ));
                            assert(self.rem() =~= old(self).rem().drop_first());
                        }
                        return Some(val);
                    },
                    Err(_e) => {
                        // A failed result is discarded.
                    },
                },
            }
        }
    }
}

/// Wraps a source of results in a [`LoggingIterator`].
pub trait IntoLoggingIterator: Source {
    /// Drops failed results; successful results are unwrapped.
    fn filter_log<T, E>(self) -> (r: LoggingIterator<Self>) where
        Self: Source<Item = Result<T, E>> + Sized
        requires
            self.inv(),
        ensures
            r.inv(),
            r.rem() == ok_values(self.rem()),
    ;
}

impl<I: Source> IntoLoggingIterator for I {
    fn filter_log<T, E>(self) -> (r: LoggingIterator<I>) where I: Source<Item = Result<T, E>> {
        LoggingIterator { inner: self }
    }
}

} // verus!
