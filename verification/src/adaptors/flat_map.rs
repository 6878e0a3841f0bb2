//! Maps each item to a producer, and consumes the items of all of them.
use vstd::prelude::*;
use crate::adaptive::division_depth;
use crate::closures::{apply1, call1, deterministic1};
use crate::pool::join;
use crate::traits::{fold_items, lemma_fold_split, monoid, Consumer, Divisible, Producer, Reducer};

verus! {

/// The results of `consumer` on the items of the producers that `map_op`
/// gives for `items`.
pub open spec fn inner_results<X, Q: Producer, C: Consumer<Q::Item>, F: Fn(X) -> Q>(
    consumer: C,
    map_op: F,
    items: Seq<X>,
) -> Seq<C::Result> {
    items.map_values(|x: X| consumer.spec_result(apply1(map_op, x).items()))
}

/// Every producer that `map_op` gives yields all its items, and its cuts
/// keep them.
pub open spec fn gives_full_producers<X, Q: Producer, F: Fn(X) -> Q>(map_op: F) -> bool {
    forall|x: X|
        #![trigger apply1(map_op, x)]
        apply1(map_op, x).wf() && apply1(map_op, x).complete() && apply1(map_op, x).splits_items()
}

/// Maps each item of `base` to a producer with `map_op`.
pub struct FlatMap<I, F> {
    pub base: I,
    pub map_op: F,
}

/// Consumes, with `base`, the items of the producers that `map_op` gives
/// for each item, and combines the results in order with the reducer of
/// `base`.
pub struct FlatMapConsumer<C, F> {
    pub base: C,
    pub map_op: F,
}

/// Consumes the producers given for the items of `producer`, dividing
/// `producer` in parallel while `depth` allows and it should be divided.
fn consume_flat<X, P, Q, C, F>(producer: P, consumer: C, map_op: F, reducer: &C::Reducer, depth: u32) -> (r: C::Result) where
    X: Send,
    P: Producer<Item = X> + Send,
    Q: Producer + Send,
    C: Consumer<Q::Item> + Copy + Send + Sync,
    C::Result: Send,
    C::Reducer: Sync,
    F: Fn(X) -> Q + Copy + Send + Sync,

    requires
        producer.wf(),
        consumer.wf(),
        deterministic1(map_op),
        gives_full_producers(map_op),
        *reducer == consumer.spec_reducer(),
        reducer.wf(),
    ensures
        producer.complete() && producer.splits_items() && monoid(*reducer) ==> r == fold_items(
            *reducer,
            reducer.spec_identity(),
            inner_results(consumer, map_op, producer.items()),
        ),
    decreases depth,
{
    if depth > 0 && producer.should_be_divided() {
        let (left, right) = producer.divide();
        let ghost (li, ri) = (left.items(), right.items());
        let ghost (lc, rc) = (left.complete() && left.splits_items(), right.complete() && right.splits_items());
        let f = move || -> (v: C::Result)
            ensures
                lc && monoid(*reducer) ==> v == fold_items(
                    *reducer,
                    reducer.spec_identity(),
                    inner_results(consumer, map_op, li),
                ),
            { consume_flat(left, consumer, map_op, reducer, depth - 1) };
        let g = move || -> (v: C::Result)
            ensures
                rc && monoid(*reducer) ==> v == fold_items(
                    *reducer,
                    reducer.spec_identity(),
                    inner_results(consumer, map_op, ri),
                ),
            { consume_flat(right, consumer, map_op, reducer, depth - 1) };
        let (a, b) = join(f, g);
        proof {
            if producer.complete() && producer.splits_items() && monoid(*reducer) {
                assert(inner_results(consumer, map_op, li + ri) =~= inner_results(consumer, map_op, li)
                    + inner_results(consumer, map_op, ri));
                lemma_fold_split(
                    *reducer,
                    inner_results(consumer, map_op, li),
                    inner_results(consumer, map_op, ri),
                );
            }
        }
        reducer.reduce(a, b)
    } else {
        let ghost target = fold_items(
            *reducer,
            reducer.spec_identity(),
            inner_results(consumer, map_op, producer.items()),
        );
        let ghost complete = producer.complete();
        let mut acc = reducer.identity();
        let mut p = producer;
        loop
            invariant
                p.wf(),
                consumer.wf(),
                deterministic1(map_op),
                gives_full_producers(map_op),
                *reducer == consumer.spec_reducer(),
                reducer.wf(),
                p.complete() == complete,
                complete ==> fold_items(*reducer, acc, inner_results(consumer, map_op, p.items()))
                    == target,
            ensures
                complete ==> acc == target,
            decreases p.items().len(),
        {
            let ghost before = p.items();
            match p.next() {
                Some(x) => {
                    let q = call1(&map_op, x);
                    let v = consumer.consume_producer(q);
                    proof {
                        if complete {
                            assert(inner_results(consumer, map_op, before).drop_first() =~= inner_results(
                                consumer,
                                map_op,
                                p.items(),
                            ));
                        }
                    }
                    acc = reducer.reduce(acc, v);
                },
                None => {
                    break ;
                },
            }
        }
        acc
    }
}

impl<X, Q, C, F> Consumer<X> for FlatMapConsumer<C, F> where
    X: Send,
    Q: Producer + Send,
    C: Consumer<Q::Item> + Copy + Send + Sync,
    C::Result: Send,
    C::Reducer: Sync,
    F: Fn(X) -> Q + Copy + Send + Sync,
 {
    type Result = C::Result;

    type Reducer = C::Reducer;

    /// `map_op` is deterministic and gives producers that yield all their
    /// items, and the reducer of `base` is a monoid.
    open spec fn wf(&self) -> bool {
        &&& self.base.wf()
        &&& deterministic1(self.map_op)
        &&& gives_full_producers(self.map_op)
        &&& monoid(self.base.spec_reducer())
    }

    open spec fn spec_result(&self, items: Seq<X>) -> C::Result {
        fold_items(
            self.base.spec_reducer(),
            self.base.spec_reducer().spec_identity(),
            inner_results(self.base, self.map_op, items),
        )
    }

    open spec fn spec_reducer(&self) -> C::Reducer {
        self.base.spec_reducer()
    }

    /// Consumes the producer given for each item with a copy of `base`,
    /// dividing the work in parallel as deep as the pool's threads call for.
    fn consume_producer<P: Producer<Item = X> + Send>(self, producer: P) -> (r: C::Result) {
        let base = self.base;
        let reducer = base.to_reducer();
        let depth = division_depth();
        consume_flat(producer, self.base, self.map_op, &reducer, depth)
    }

    /// The reducer of `base`.
    fn to_reducer(self) -> (r: C::Reducer) {
        self.base.to_reducer()
    }
}

impl<P: Producer + Send, F> FlatMap<P, F> where P::Item: Send {
    /// Consumes with `consumer` the items of the producers that `map_op`
    /// gives for the items of `base`.
    pub fn drive<Q, C>(self, consumer: C) -> (r: C::Result) where
        Q: Producer + Send,
        C: Consumer<Q::Item> + Copy + Send + Sync,
        C::Result: Send,
        C::Reducer: Sync,
        F: Fn(P::Item) -> Q + Copy + Send + Sync,

        requires
            self.base.wf(),
            (FlatMapConsumer { base: consumer, map_op: self.map_op }).wf(),
        ensures
            self.base.complete() && self.base.splits_items() ==> r == (FlatMapConsumer {
                base: consumer,
                map_op: self.map_op,
            }).spec_result(self.base.items()),
    {
        let c = FlatMapConsumer { base: consumer, map_op: self.map_op };
        c.consume_producer(self.base)
    }
}

} // verus!
