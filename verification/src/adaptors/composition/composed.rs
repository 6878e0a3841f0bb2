//! Limits nested parallelism.
use vstd::prelude::*;
use std::sync::atomic::{AtomicBool, AtomicU64, Ordering};
use crate::adaptors::fold::{fold_producer, fold_with};
use crate::closures::deterministic2;
use crate::traits::{Divisible, Producer};

verus! {

/// Tries to limit parallel composition by switching off the ability to
/// divide in parallel after a certain level of composition and upper task
/// completion.
pub struct Composed<I> {
    pub base: I,
}

impl<P: Producer> Composed<P> {
    /// The producer that applies the policy to `self.base`, with the flag that
    /// tells whether parallelism is allowed on the running thread.
    pub fn producer<'a>(self, allow_parallelism: &'a AtomicBool) -> (r: ComposedProducer<'a, P>)
        ensures
            r.base == self.base,
            r.allow_parallelism == allow_parallelism,
    {
        ComposedProducer { base: self.base, allow_parallelism }
    }
}

impl<'a, P: Producer> ComposedProducer<'a, P> {
    /// Folds all the items on this thread. While it does, parallelism is
    /// switched off on the thread if the piece is big (more than one item), and
    /// restored afterwards.
    pub fn fold<B, F: Fn(B, P::Item) -> B>(self, init: B, f: &F) -> (r: B)
        requires
            self.wf(),
            deterministic2(*f),
        ensures
            self.complete() ==> r == fold_with(*f, init, self.items()),
    {
        let (next_work_size, _) = self.base.sizes();
        let allowed = self.allow_parallelism.load(Ordering::Relaxed);
        if allowed {
            if next_work_size > 1 {
                self.allow_parallelism.store(false, Ordering::Relaxed);
            }
        }
        let flag = self.allow_parallelism;
        let result = fold_producer(self.base, f, init);
        flag.store(allowed, Ordering::Relaxed);
        result
    }
}

impl<'a, P: Producer> ComposedProducer<'a, P> {
    /// Whether to divide, given `allowed`, whether parallelism was read as
    /// allowed on the running thread: never where it is not, else as the
    /// base answers.
    pub fn should_be_divided_given(&self, allowed: bool) -> (r: bool)
        requires
            self.wf(),
        ensures
            !allowed ==> !r,
            allowed ==> (self.base.must_divide() ==> r) && (r ==> self.base.may_divide()
                && self.base.can_divide()),
    {
        allowed && self.base.should_be_divided()
    }
}

/// A piece under the composition policy: it is divided only while
/// parallelism is allowed on the running thread.
pub struct ComposedProducer<'a, I> {
    pub base: I,
    pub allow_parallelism: &'a AtomicBool,
}

impl<'a, P: Producer> Divisible for ComposedProducer<'a, P> {
    type Item = P::Item;

    open spec fn wf(&self) -> bool {
        self.base.wf()
    }

    open spec fn items(&self) -> Seq<P::Item> {
        self.base.items()
    }

    open spec fn spec_len(&self) -> nat {
        self.base.spec_len()
    }

    open spec fn splits_items(&self) -> bool {
        self.base.splits_items()
    }

    open spec fn complete(&self) -> bool {
        self.base.complete()
    }

    open spec fn double_ended(&self) -> bool {
        false
    }

    open spec fn can_preview(&self) -> bool {
        self.base.can_preview()
    }

    open spec fn can_divide(&self) -> bool {
        self.base.can_divide()
    }

    open spec fn can_divide_at(&self) -> bool {
        self.base.can_divide_at()
    }

    open spec fn exact(&self) -> bool {
        self.base.exact()
    }

    proof fn lemma_exact(&self) {
        self.base.lemma_exact();
    }

    open spec fn always_divisible(&self) -> bool {
        self.base.always_divisible()
    }

    proof fn lemma_always_divisible(&self) {
        self.base.lemma_always_divisible();
    }

    open spec fn may_divide(&self) -> bool {
        self.base.may_divide()
    }

    open spec fn must_divide(&self) -> bool {
        false
    }

    fn should_be_divided(&self) -> (r: bool) {
        let allowed = self.allow_parallelism.load(Ordering::Relaxed);
        self.should_be_divided_given(allowed)
    }

    fn divide(self) -> (r: (Self, Self))
        ensures
            r.0.allow_parallelism == self.allow_parallelism,
            r.1.allow_parallelism == self.allow_parallelism,
    {
        let (left, right) = self.base.divide();
        (ComposedProducer { base: left, allow_parallelism: self.allow_parallelism }, ComposedProducer { base: right, allow_parallelism: self.allow_parallelism })
    }

    fn divide_at(self, index: usize) -> (r: (Self, Self))
        ensures
            r.0.allow_parallelism == self.allow_parallelism,
            r.1.allow_parallelism == self.allow_parallelism,
    {
        let (left, right) = self.base.divide_at(index);
        (ComposedProducer { base: left, allow_parallelism: self.allow_parallelism }, ComposedProducer { base: right, allow_parallelism: self.allow_parallelism })
    }
}

impl<'a, P: Producer> Producer for ComposedProducer<'a, P> {
    open spec fn spec_sizes(&self) -> (usize, Option<usize>) {
        self.base.spec_sizes()
    }

    fn next(&mut self) -> (r: Option<P::Item>) {
        self.base.next()
    }

    fn next_back(&mut self) -> (r: Option<P::Item>) {
        None
    }

    fn sizes(&self) -> (r: (usize, Option<usize>)) {
        self.base.sizes()
    }

    fn length(&self) -> (r: usize) {
        self.base.length()
    }

    fn preview(&self, index: usize) -> (r: P::Item) {
        self.base.preview(index)
    }
}


} // verus!
