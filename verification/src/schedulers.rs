//! Running a producer to a single value: sequentially, or dividing it and
//! reducing the pieces in parallel.
use vstd::prelude::*;
use crate::pool::join;
use crate::adaptive::division_depth;
use crate::traits::{fold_items, lemma_fold_split, monoid, Consumer, Producer, ProducerCallback, Reducer};

verus! {

/// A reducer built from two closures: `identity` makes the unit, `op`
/// combines two values. Both must be deterministic.
#[derive(Clone, Copy)]
pub struct ReduceConsumer<OP, ID> {
    pub op: OP,
    pub identity: ID,
}

impl<T, OP: Fn(T, T) -> T, ID: Fn() -> T> Reducer<T> for ReduceConsumer<OP, ID> {
    open spec fn wf(&self) -> bool {
        &&& self.identity.requires(())
        &&& forall|a: T, b: T| #[trigger] self.op.requires((a, b))
        &&& forall|r1: T, r2: T| self.identity.ensures((), r1) && self.identity.ensures((), r2) ==> r1 == r2
        &&& forall|a: T, b: T, r1: T, r2: T|
            #[trigger] self.op.ensures((a, b), r1) && #[trigger] self.op.ensures((a, b), r2) ==> r1 == r2
    }

    open spec fn spec_identity(&self) -> T {
        choose|r: T| self.identity.ensures((), r)
    }

    open spec fn spec_reduce(&self, a: T, b: T) -> T {
        choose|r: T| self.op.ensures((a, b), r)
    }

    fn identity(&self) -> (r: T) {
        (self.identity)()
    }

    fn reduce(&self, a: T, b: T) -> (r: T) {
        (self.op)(a, b)
    }
}

impl<T: Send, OP: Fn(T, T) -> T + Sync, ID: Fn() -> T + Sync> Consumer<T> for ReduceConsumer<OP, ID> {
    type Result = T;

    type Reducer = Self;

    /// The closures are deterministic and make a monoid.
    open spec fn wf(&self) -> bool {
        Reducer::<T>::wf(self) && monoid::<T, Self>(*self)
    }

    open spec fn spec_result(&self, items: Seq<T>) -> T {
        fold_items(*self, Reducer::<T>::spec_identity(self), items)
    }

    open spec fn spec_reducer(&self) -> Self {
        *self
    }

    /// It is its own reducer.
    fn to_reducer(self) -> (r: Self) {
        self
    }

    /// Reduces the items with `schedule_join`, dividing as deep as the
    /// pool's threads call for.
    fn consume_producer<P: Producer<Item = T> + Send>(self, producer: P) -> (r: T) {
        let depth = division_depth();
        schedule_join(producer, &self, depth)
    }
}

impl<T: Send, OP: Fn(T, T) -> T + Sync, ID: Fn() -> T + Sync> ProducerCallback<T> for ReduceConsumer<OP, ID> {
    type Output = T;

    open spec fn wf(&self) -> bool {
        Consumer::<T>::wf(self)
    }

    open spec fn spec_output(&self, items: Seq<T>) -> T {
        Consumer::<T>::spec_result(self, items)
    }

    /// Reduces the items of `producer`, as `consume_producer` does.
    fn call<P: Producer<Item = T> + Send>(self, producer: P) -> (r: T) {
        self.consume_producer(producer)
    }
}

/// Folds the items of `producer` with `reducer`, from the reducer's identity,
/// in order, on the calling thread.
pub fn sequential_scheduler<P: Producer, R: Reducer<P::Item>>(producer: P, reducer: &R) -> (r: P::Item)
    requires
        producer.wf(),
        reducer.wf(),
    ensures
        producer.complete() ==> r == fold_items(*reducer, reducer.spec_identity(), producer.items()),
{
    let ghost all = producer.items();
    let mut acc = reducer.identity();
    let mut p = producer;
    loop
        invariant
            p.wf(),
            reducer.wf(),
            p.complete() == producer.complete(),
            producer.complete() ==> fold_items(*reducer, acc, p.items()) == fold_items(
                *reducer,
                reducer.spec_identity(),
                all,
            ),
        ensures
            producer.complete() ==> acc == fold_items(*reducer, reducer.spec_identity(), all),
        decreases p.items().len(),
    {
        match p.next() {
            Some(x) => {
                acc = reducer.reduce(acc, x);
            },
            None => {
                break ;
            },
        }
    }
    acc
}

/// Reduces `producer` in parallel: while `depth` allows and the producer
/// should be divided, both halves are reduced in parallel and their results
/// combined; smaller pieces are folded sequentially.
pub fn schedule_join<P, R>(producer: P, reducer: &R, depth: u32) -> (r: P::Item) where
    P: Producer + Send,
    P::Item: Send,
    R: Reducer<P::Item> + Sync,

    requires
        producer.wf(),
        reducer.wf(),
    ensures
        depth == 0 && producer.complete() ==> r == fold_items(
            *reducer,
            reducer.spec_identity(),
            producer.items(),
        ),
        producer.complete() && producer.splits_items() && monoid(*reducer) ==> r == fold_items(
            *reducer,
            reducer.spec_identity(),
            producer.items(),
        ),
    decreases depth,
{
    if depth > 0 && producer.should_be_divided() {
        let (left, right) = producer.divide();
        let ghost (li, ri) = (left.items(), right.items());
        let ghost (lc, ls) = (left.complete() && left.splits_items(), right.complete() && right.splits_items());
        let f = move || -> (v: P::Item)
            ensures
                lc && monoid(*reducer) ==> v == fold_items(*reducer, reducer.spec_identity(), li),
            { schedule_join(left, reducer, depth - 1) };
        let g = move || -> (v: P::Item)
            ensures
                ls && monoid(*reducer) ==> v == fold_items(*reducer, reducer.spec_identity(), ri),
            { schedule_join(right, reducer, depth - 1) };
        let (a, b) = join(f, g);
        proof {
            if producer.complete() && producer.splits_items() && monoid(*reducer) {
                lemma_fold_split(*reducer, li, ri);
            }
        }
        reducer.reduce(a, b)
    } else {
        sequential_scheduler(producer, reducer)
    }
}

} // verus!
