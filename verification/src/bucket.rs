//! Partitioning the items of a source into labeled buckets.

use vstd::prelude::*;

use crate::logging::err_values;
use crate::logging::ok_values;
use crate::source::Source;

verus! {

/// The items of `input` assigned to bucket `j` by the index sequence
/// `idx`, in input order.
pub open spec fn bucket_of<T>(input: Seq<T>, idx: Seq<usize>, j: int) -> Seq<T>
    decreases input.len(),
{
    if input.len() == 0 {
        Seq::empty()
    } else {
        let rest = bucket_of(input.drop_last(), idx.drop_last(), j);
        if idx.len() == input.len() && idx.last() as int == j {
            rest.push(input.last())
        } else {
            rest
        }
    }
}

/// `idx` records, for each input item, a bucket index the partition
/// function could have produced for it, and every bucket holds exactly
/// the items assigned to it, in input order.
pub open spec fn is_bucketing<T, F: Fn(&T) -> usize>(
    f: F,
    input: Seq<T>,
    idx: Seq<usize>,
    buckets: Seq<Vec<T>>,
) -> bool {
    &&& idx.len() == input.len()
    &&& forall|k: int| 0 <= k < input.len() ==> call_ensures(f, (&input[k],), #[trigger] idx[k])
    &&& forall|j: int| 0 <= j < buckets.len() ==> (#[trigger] buckets[j])@ == bucket_of(
        input,
        idx,
        j,
    )
}

pub trait Bucket: Source {
    /// Partitions the items of this source into `N` buckets, by a function
    /// mapping each item to its bucket index. Consumes the source and
    /// holds every item in memory at once, so it is not suitable for
    /// massive amounts of data or a streaming fashion.
    fn bucket_arr<F: Fn(&Self::Item) -> usize, const N: usize>(self, partition_func: F) -> (r:
        Vec<Vec<Self::Item>>) where Self: Sized
        requires
            self.inv(),
            forall|v: Self::Item| #[trigger] call_requires(partition_func, (&v,)),
            forall|v: Self::Item, i: usize| call_ensures(partition_func, (&v,), i) ==> i < N,
        ensures
            r@.len() == N,
            exists|idx: Seq<usize>| is_bucketing(partition_func, self.rem(), idx, r@),
    ;

    /// Partitions the items of this source into `num_buckets` buckets, by
    /// a function mapping each item to its bucket index. Consumes the
    /// source and holds every item in memory at once, so it is not
    /// suitable for massive amounts of data or a streaming fashion.
    fn bucket_vec<F: Fn(&Self::Item) -> usize>(self, num_buckets: usize, partition_func: F) -> (r:
        Vec<Vec<Self::Item>>) where Self: Sized
        requires
            self.inv(),
            forall|v: Self::Item| #[trigger] call_requires(partition_func, (&v,)),
            forall|v: Self::Item, i: usize|
                call_ensures(partition_func, (&v,), i) ==> i < num_buckets,
        ensures
            r@.len() == num_buckets,
            exists|idx: Seq<usize>| is_bucketing(partition_func, self.rem(), idx, r@),
    ;

    /// Consumes the source, bucketing results into the successful and the
    /// failed ones, unwrapping the result objects.
    fn bucket_result<T, E>(self) -> (r: (Vec<T>, Vec<E>)) where
        Self: Source<Item = Result<T, E>> + Sized
        requires
            self.inv(),
        ensures
            r.0@ == ok_values(self.rem()),
            r.1@ == err_values(self.rem()),
    ;
}

impl<I: Source> Bucket for I {
    fn bucket_arr<F: Fn(&I::Item) -> usize, const N: usize>(self, partition_func: F) -> (r: Vec<
        Vec<I::Item>,
    >) {
        self.bucket_vec(N, partition_func)
    }

    fn bucket_vec<F: Fn(&I::Item) -> usize>(self, num_buckets: usize, partition_func: F) -> (r:
        Vec<Vec<I::Item>>) {
        let ghost orig = self.rem();
        let mut src = self;
        let mut buckets: Vec<Vec<I::Item>> = Vec::new();
        while buckets.len() < num_buckets
            invariant
                buckets@.len() <= num_buckets,
                forall|j: int|
                    0 <= j < buckets@.len() ==> (#[trigger] buckets@[j])@ == Seq::<
                        I::Item,
                    >::empty(),
            decreases num_buckets - buckets@.len(),
        {
            buckets.push(Vec::new());
        }
        let ghost mut idx: Seq<usize> = Seq::empty();
        let ghost mut processed: Seq<I::Item> = Seq::empty();
        proof {
            assert(orig =~= processed + src.rem());
        }
        loop
            invariant
                src.inv(),
                forall|v: I::Item| #[trigger] call_requires(partition_func, (&v,)),
                forall|v: I::Item, i: usize|
                    call_ensures(partition_func, (&v,), i) ==> i < num_buckets,
                orig == processed + src.rem(),
                idx.len() == processed.len(),
                forall|k: int|
                    0 <= k < processed.len() ==> call_ensures(
                        partition_func,
                        (&processed[k],),
                        #[trigger] idx[k],
                    ),
                buckets@.len() == num_buckets,
                forall|j: int|
                    0 <= j < num_buckets ==> (#[trigger] buckets@[j])@ == bucket_of(
                        processed,
                        idx,
                        j,
                    ),
            ensures
                idx.len() == orig.len(),
                forall|k: int|
                    0 <= k < orig.len() ==> call_ensures(
                        partition_func,
                        (&orig[k],),
                        #[trigger] idx[k],
                    ),
                buckets@.len() == num_buckets,
                forall|j: int|
                    0 <= j < num_buckets ==> (#[trigger] buckets@[j])@ == bucket_of(orig, idx, j),
            decreases src.rem().len(),
        {
            let ghost p0 = processed;
            let ghost i0 = idx;
            match src.next() {
                None => {
                    proof {
                        assert(processed =~= orig);
                    }
                    break ;
                },
                Some(x) => {
                    let index = partition_func(&x);
                    proof {
                        idx = idx.push(index);
                        processed = processed.push(x);
                        assert(orig =~= processed + src.rem());
                    }
                    let slot = &mut buckets[index];
                    slot.push(x);
                    proof {
                        assert(processed.drop_last() =~= p0);
                        assert(idx.drop_last() =~= i0);
                        assert forall|j: int|
                            0 <= j < num_buckets implies (#[trigger] buckets@[j])@ == bucket_of(
                            processed,
                            idx,
                            j,
                        ) by {
                            if j == index {
                                assert(buckets@[j]@ == bucket_of(p0, i0, j).push(x));
                            }
                        }
                    }
                },
            }
        }
        proof {
            assert(is_bucketing(partition_func, orig, idx, buckets@));
        }
        buckets
    }

    fn bucket_result<T, E>(self) -> (r: (Vec<T>, Vec<E>)) where I: Source<Item = Result<T, E>> {
        let ghost orig = self.rem();
        let mut src = self;
        let mut oks: Vec<T> = Vec::new();
        let mut errors: Vec<E> = Vec::new();
        loop
            invariant
                src.inv(),
                ok_values(orig) == oks@ + ok_values(src.rem()),
                err_values(orig) == errors@ + err_values(src.rem()),
            ensures
                oks@ == ok_values(orig),
                errors@ == err_values(orig),
            decreases src.rem().len(),
        {
            let ghost pre_rem = src.rem();
            match src.next() {
                None => {
                    proof {
                        assert(oks@ =~= ok_values(orig));
                        assert(errors@ =~= err_values(orig));
                    }
                    break ;
                },
                Some(item) => {
                    proof {
                        assert(ok_values(pre_rem) == match pre_rem[0] {
                            Ok(v) => seq![v] + ok_values(pre_rem.drop_first()),
                            Err(_) => ok_values(pre_rem.drop_first()),
                        });
                        assert(err_values(pre_rem) == match pre_rem[0] {
                            Ok(_) => err_values(pre_rem.drop_first()),
                            Err(e) => seq![e] + err_values(pre_rem.drop_first()),
                        });
                    }
                    match item {
                        Ok(t) => oks.push(t),
                        Err(e) => errors.push(e),
                    };
                    proof {
                        assert(ok_values(orig) =~= oks@ + ok_values(src.rem()));
                        assert(err_values(orig) =~= errors@ + err_values(src.rem()));
                    }
                },
            }
        }
        (oks, errors)
    }
}

} // verus!
