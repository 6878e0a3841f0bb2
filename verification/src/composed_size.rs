//! Rayon's policy for nested parallel iterators, with the budget of the
//! running thread held in a shared cell.
use vstd::prelude::*;
use std::sync::atomic::{AtomicUsize, Ordering};
use crate::adaptors::composition::composed_size::{initial_counter, ComposedSizeProducer};
use crate::pool::current_thread_index;
use crate::adaptors::fold::{fold_producer, fold_with};
use crate::closures::deterministic2;
use crate::traits::{Divisible, Producer};

verus! {

/// Rayon's policy for composed iterators: the budget of divisions of a
/// piece is at most the one left to the enclosing computation, which
/// `budget` holds for the running thread.
pub struct ComposedSize<I> {
    pub base: I,
    pub reset_counter: usize,
}

impl<P: Producer> ComposedSize<P> {
    /// The producer that applies the policy to `self.base`, created by the
    /// running worker thread; `None` on a thread outside any pool, where
    /// there is no thread index to record.
    pub fn producer(self, budget: &AtomicUsize) -> (r: Option<ComposedSizeProducer<P>>)
        ensures
            r matches Some(p) ==> p.base == self.base && p.reset_counter == self.reset_counter
                && p.counter <= self.reset_counter,
    {
        let enclosing = budget.load(Ordering::Relaxed);
        let counter = initial_counter(self.reset_counter, enclosing);
        match current_thread_index() {
            Some(created_by) => Some(
                ComposedSizeProducer {
                    base: self.base,
                    reset_counter: self.reset_counter,
                    created_by,
                    counter,
                },
            ),
            None => None,
        }
    }
}

/// Folds the items of `producer` with `f`, from `init`, on this thread,
/// with its budget put in `budget` while it runs (so that iterators nested
/// in its work see it), and the previous budget put back afterwards.
pub fn fold_with_budget<P: Producer, B, F: Fn(B, P::Item) -> B>(
    producer: ComposedSizeProducer<P>,
    init: B,
    f: &F,
    budget: &AtomicUsize,
) -> (r: B)
    requires
        producer.wf(),
        deterministic2(*f),
    ensures
        producer.complete() ==> r == fold_with(*f, init, producer.items()),
{
    let old = budget.swap(producer.counter, Ordering::Relaxed);
    let result = fold_producer(producer.base, f, init);
    budget.store(old, Ordering::Relaxed);
    result
}

} // verus!
