//! Limits nested parallelism by counting tasks.
use vstd::prelude::*;
use std::sync::atomic::{AtomicBool, AtomicU64, Ordering};
use crate::adaptors::fold::{fold_producer, fold_with};
use crate::closures::deterministic2;
use crate::traits::{Divisible, Producer};

verus! {

/// Tries to limit parallel composition: parallelism is switched off on a
/// thread while it folds a big piece, and the last task left may always be
/// divided.
pub struct ComposedTask<I> {
    pub base: I,
    pub counter: AtomicU64,
}

impl<P: Producer> ComposedTask<P> {
    /// The producer that applies the policy to `self.base`, counting its
    /// live tasks in `self.counter`.
    pub fn producer<'a>(&'a self, base: P, allow_parallelism: &'a AtomicBool) -> (r: ComposedTaskProducer<'a, P>)
        ensures
            r.base == base,
            r.counter == &self.counter,
            r.allow_parallelism == allow_parallelism,
    {
        ComposedTaskProducer { base, counter: &self.counter, allow_parallelism }
    }
}

impl<'a, P: Producer> ComposedTaskProducer<'a, P> {
    /// Folds all the items on this thread. While it does, parallelism is
    /// switched off on the thread if the piece is big (not exactly one item), and
    /// restored afterwards.
    pub fn fold<B, F: Fn(B, P::Item) -> B>(self, init: B, f: &F) -> (r: B)
        requires
            self.wf(),
            deterministic2(*f),
        ensures
            self.complete() ==> r == fold_with(*f, init, self.items()),
    {
        let (next_work_size, _) = self.base.sizes();
        let allowed = self.allow_parallelism.load(Ordering::Relaxed);
        if allowed {
            if next_work_size != 1 {
                self.allow_parallelism.store(false, Ordering::Relaxed);
            }
        }
        self.counter.fetch_sub(1, Ordering::Relaxed);
        let flag = self.allow_parallelism;
        let result = fold_producer(self.base, f, init);
        flag.store(allowed, Ordering::Relaxed);
        result
    }
}

impl<'a, P: Producer> ComposedTaskProducer<'a, P> {
    /// Whether to divide, given `allowed`, whether parallelism was read as
    /// allowed on the running thread, and `tasks`, the number of live tasks
    /// read: never where parallelism is not allowed; else where the base
    /// asks, or where this is the last task and holds more than one item.
    pub fn should_be_divided_given(&self, allowed: bool, tasks: u64) -> (r: bool)
        requires
            self.wf(),
        ensures
            !allowed ==> !r,
            allowed && self.base.must_divide() ==> r,
            allowed && tasks == 1 && self.base.complete() && self.base.spec_sizes().0 > 1 ==> r,
            r ==> self.base.can_divide(),
    {
        proof {
            self.base.lemma_always_divisible();
        }
        let (size, _) = self.base.sizes();
        let last_task = tasks == 1 && size > 1;
        allowed && (self.base.should_be_divided() || last_task)
    }
}

/// A piece under the task-counting composition policy.
pub struct ComposedTaskProducer<'a, I> {
    pub base: I,
    pub counter: &'a AtomicU64,
    pub allow_parallelism: &'a AtomicBool,
}

impl<'a, P: Producer> Divisible for ComposedTaskProducer<'a, P> {
    type Item = P::Item;

    open spec fn wf(&self) -> bool {
        self.base.wf() && self.base.always_divisible()
    }

    open spec fn items(&self) -> Seq<P::Item> {
        self.base.items()
    }

    open spec fn spec_len(&self) -> nat {
        self.base.spec_len()
    }

    open spec fn splits_items(&self) -> bool {
        self.base.splits_items()
    }

    open spec fn complete(&self) -> bool {
        self.base.complete()
    }

    open spec fn double_ended(&self) -> bool {
        false
    }

    open spec fn can_preview(&self) -> bool {
        self.base.can_preview()
    }

    open spec fn can_divide(&self) -> bool {
        self.base.can_divide()
    }

    open spec fn can_divide_at(&self) -> bool {
        self.base.can_divide_at()
    }

    open spec fn exact(&self) -> bool {
        self.base.exact()
    }

    proof fn lemma_exact(&self) {
        self.base.lemma_exact();
    }

    open spec fn always_divisible(&self) -> bool {
        self.base.always_divisible()
    }

    proof fn lemma_always_divisible(&self) {
        self.base.lemma_always_divisible();
    }

    open spec fn may_divide(&self) -> bool {
        true
    }

    open spec fn must_divide(&self) -> bool {
        false
    }

    fn should_be_divided(&self) -> (r: bool) {
        proof {
            self.base.lemma_always_divisible();
        }
        let allowed = self.allow_parallelism.load(Ordering::Relaxed);
        let tasks = self.counter.load(Ordering::Relaxed);
        self.should_be_divided_given(allowed, tasks)
    }

    fn divide(self) -> (r: (Self, Self))
        ensures
            r.0.counter == self.counter && r.1.counter == self.counter,
            r.0.allow_parallelism == self.allow_parallelism && r.1.allow_parallelism == self.allow_parallelism,
    {
        proof {
            self.base.lemma_always_divisible();
        }
        self.counter.fetch_add(1, Ordering::Relaxed);
        let (left, right) = self.base.divide();
        (
            ComposedTaskProducer { base: left, counter: self.counter, allow_parallelism: self.allow_parallelism },
            ComposedTaskProducer { base: right, counter: self.counter, allow_parallelism: self.allow_parallelism },
        )
    }

    fn divide_at(self, index: usize) -> (r: (Self, Self))
        ensures
            r.0.counter == self.counter && r.1.counter == self.counter,
            r.0.allow_parallelism == self.allow_parallelism && r.1.allow_parallelism == self.allow_parallelism,
    {
        proof {
            self.base.lemma_always_divisible();
        }
        self.counter.fetch_add(1, Ordering::Relaxed);
        let (left, right) = self.base.divide_at(index);
        (
            ComposedTaskProducer { base: left, counter: self.counter, allow_parallelism: self.allow_parallelism },
            ComposedTaskProducer { base: right, counter: self.counter, allow_parallelism: self.allow_parallelism },
        )
    }
}

impl<'a, P: Producer> Producer for ComposedTaskProducer<'a, P> {
    open spec fn spec_sizes(&self) -> (usize, Option<usize>) {
        self.base.spec_sizes()
    }

    fn next(&mut self) -> (r: Option<P::Item>) {
        self.base.next()
    }

    fn next_back(&mut self) -> (r: Option<P::Item>) {
        None
    }

    fn sizes(&self) -> (r: (usize, Option<usize>)) {
        self.base.sizes()
    }

    fn length(&self) -> (r: usize) {
        self.base.length()
    }

    fn preview(&self, index: usize) -> (r: P::Item) {
        self.base.preview(index)
    }
}


} // verus!
