//! Limits nested parallelism by the share of the work already done.
use vstd::prelude::*;
use std::sync::atomic::{AtomicBool, AtomicU64, Ordering};
use crate::adaptors::composed_counter::size_as_count;
use crate::adaptors::fold::{fold_producer, fold_with};
use crate::closures::deterministic2;
use crate::traits::{Divisible, Producer};
use crate::utils::ratio::parallelism_allowed;

verus! {

/// Tries to limit parallel composition by switching off the ability to
/// divide in parallel after a certain level of composition and upper task
/// completion: `counter` counts the work already done.
pub struct Composed<I> {
    pub base: I,
    pub counter: AtomicU64,
}

impl<P: Producer> Composed<P> {
    /// The producer that applies the policy to `base`, counting the work
    /// done in `self.counter`, with the flag that tells whether parallelism
    /// is allowed on the running thread. The whole work is the length of
    /// `base`.
    pub fn producer<'a>(&'a self, base: P, allow_parallelism: &'a AtomicBool) -> (r: ComposedProducer<'a, P>)
        requires
            base.wf(),
            base.can_preview(),
        ensures
            r.base == base,
            r.initial_size == base.items().len(),
            r.work_count == &self.counter,
            r.allow_parallelism == allow_parallelism,
    {
        let initial_size = base.length();
        ComposedProducer { base, initial_size, work_count: &self.counter, allow_parallelism }
    }
}

impl<'a, P: Producer> ComposedProducer<'a, P> {
    /// Folds all the items on this thread. Before it does, parallelism is
    /// switched off on the thread while the work done, with this piece, is
    /// below nine tenths of the whole, and switched on otherwise; the work
    /// of the piece is then counted as done.
    pub fn fold<B, F: Fn(B, P::Item) -> B>(self, init: B, f: &F) -> (r: B)
        requires
            self.wf(),
            deterministic2(*f),
        ensures
            self.complete() ==> r == fold_with(*f, init, self.items()),
    {
        let (next_work_size, _) = self.base.sizes();
        let previous_total_work = self.work_count.load(Ordering::Relaxed);
        let allowed = parallelism_allowed(next_work_size, previous_total_work, self.initial_size);
        self.allow_parallelism.store(allowed, Ordering::Relaxed);
        let work_count = self.work_count;
        let result = fold_producer(self.base, f, init);
        work_count.fetch_add(size_as_count(next_work_size), Ordering::Relaxed);
        result
    }
}

impl<'a, P: Producer> ComposedProducer<'a, P> {
    /// Whether to divide, given `allowed`, whether parallelism was read as
    /// allowed on the running thread: never where it is not, else as the
    /// base answers.
    pub fn should_be_divided_given(&self, allowed: bool) -> (r: bool)
        requires
            self.wf(),
        ensures
            !allowed ==> !r,
            allowed ==> (self.base.must_divide() ==> r) && (r ==> self.base.may_divide()
                && self.base.can_divide()),
    {
        allowed && self.base.should_be_divided()
    }
}

/// A piece under the composition policy: it is divided only while
/// parallelism is allowed on the running thread.
pub struct ComposedProducer<'a, I> {
    pub base: I,
    pub initial_size: usize,
    pub work_count: &'a AtomicU64,
    pub allow_parallelism: &'a AtomicBool,
}

impl<'a, P: Producer> Divisible for ComposedProducer<'a, P> {
    type Item = P::Item;

    open spec fn wf(&self) -> bool {
        self.base.wf()
    }

    open spec fn items(&self) -> Seq<P::Item> {
        self.base.items()
    }

    open spec fn spec_len(&self) -> nat {
        self.base.spec_len()
    }

    open spec fn splits_items(&self) -> bool {
        self.base.splits_items()
    }

    open spec fn complete(&self) -> bool {
        self.base.complete()
    }

    open spec fn double_ended(&self) -> bool {
        false
    }

    open spec fn can_preview(&self) -> bool {
        self.base.can_preview()
    }

    open spec fn can_divide(&self) -> bool {
        self.base.can_divide()
    }

    open spec fn can_divide_at(&self) -> bool {
        self.base.can_divide_at()
    }

    open spec fn exact(&self) -> bool {
        self.base.exact()
    }

    proof fn lemma_exact(&self) {
        self.base.lemma_exact();
    }

    open spec fn always_divisible(&self) -> bool {
        self.base.always_divisible()
    }

    proof fn lemma_always_divisible(&self) {
        self.base.lemma_always_divisible();
    }

    open spec fn may_divide(&self) -> bool {
        self.base.may_divide()
    }

    open spec fn must_divide(&self) -> bool {
        false
    }

    fn should_be_divided(&self) -> (r: bool) {
        let allowed = self.allow_parallelism.load(Ordering::Relaxed);
        self.should_be_divided_given(allowed)
    }

    fn divide(self) -> (r: (Self, Self))
        ensures
            r.0.initial_size == self.initial_size && r.1.initial_size == self.initial_size,
            r.0.work_count == self.work_count && r.1.work_count == self.work_count,
            r.0.allow_parallelism == self.allow_parallelism && r.1.allow_parallelism == self.allow_parallelism,
    {
        let (left, right) = self.base.divide();
        (ComposedProducer { base: left, initial_size: self.initial_size, work_count: self.work_count, allow_parallelism: self.allow_parallelism }, ComposedProducer { base: right, initial_size: self.initial_size, work_count: self.work_count, allow_parallelism: self.allow_parallelism })
    }

    fn divide_at(self, index: usize) -> (r: (Self, Self))
        ensures
            r.0.initial_size == self.initial_size && r.1.initial_size == self.initial_size,
            r.0.work_count == self.work_count && r.1.work_count == self.work_count,
            r.0.allow_parallelism == self.allow_parallelism && r.1.allow_parallelism == self.allow_parallelism,
    {
        let (left, right) = self.base.divide_at(index);
        (ComposedProducer { base: left, initial_size: self.initial_size, work_count: self.work_count, allow_parallelism: self.allow_parallelism }, ComposedProducer { base: right, initial_size: self.initial_size, work_count: self.work_count, allow_parallelism: self.allow_parallelism })
    }
}

impl<'a, P: Producer> Producer for ComposedProducer<'a, P> {
    open spec fn spec_sizes(&self) -> (usize, Option<usize>) {
        self.base.spec_sizes()
    }

    fn next(&mut self) -> (r: Option<P::Item>) {
        self.base.next()
    }

    fn next_back(&mut self) -> (r: Option<P::Item>) {
        None
    }

    fn sizes(&self) -> (r: (usize, Option<usize>)) {
        self.base.sizes()
    }

    fn length(&self) -> (r: usize) {
        self.base.length()
    }

    fn preview(&self, index: usize) -> (r: P::Item) {
        self.base.preview(index)
    }
}


} // verus!
