//! Limits nested parallelism by counting work done.
use vstd::prelude::*;
use std::sync::atomic::{AtomicBool, AtomicU64, Ordering};
use crate::adaptors::fold::{fold_producer, fold_with};
use crate::closures::deterministic2;
use crate::traits::{Divisible, Producer};

verus! {

/// Tries to limit parallel composition by switching off the ability to
/// divide in parallel after a certain level of composition and upper task
/// completion: the work done so far is counted, and pieces are divided
/// again once only `threshold` items of work are left.
pub struct ComposedCounter<I> {
    pub base: I,
    pub counter: AtomicU64,
    pub threshold: usize,
}

impl<P: Producer> ComposedCounter<P> {
    /// The producer that applies the policy to `base`, counting the work done
    /// in `self.counter`.
    pub fn producer<'a>(&'a self, base: P, allow_parallelism: &'a AtomicBool) -> (r: ComposedCounterProducer<'a, P>)
        requires
            base.wf(),
            base.can_preview(),
        ensures
            r.base == base,
            r.initial_size == base.items().len(),
            r.work_count == &self.counter,
            r.threshold == self.threshold,
            r.allow_parallelism == allow_parallelism,
    {
        let initial_size = base.length();
        ComposedCounterProducer {
            base,
            initial_size,
            work_count: &self.counter,
            threshold: self.threshold,
            allow_parallelism,
        }
    }
}

/// `x` as a `u64` (`usize` is at most 64 bits wide).
pub fn size_as_count(x: usize) -> (r: u64)
    ensures
        r == x,
{
    x as u64
}

/// `x` as a `usize` (truncated where `usize` is narrower).
pub fn count_as_usize(x: u64) -> (r: usize)
    ensures
        r == x as usize,
{
    x as usize
}

/// Whether `my_size` items plus `work_count` items already done reach the
/// total work minus the threshold.
pub open spec fn spec_at_limit(my_size: nat, work_count: nat, initial_size: nat, threshold: nat) -> bool {
    my_size + work_count >= initial_size - threshold
}

/// Whether a piece of `my_size` items covers the total work minus the
/// threshold by itself, with no work done yet.
pub open spec fn piece_at_limit(my_size: usize, initial_size: usize, threshold: usize) -> bool {
    spec_at_limit(my_size as nat, 0, initial_size as nat, threshold as nat)
}

/// The rule of `spec_at_limit`.
pub fn reaches_limit(my_size: usize, work_count: usize, initial_size: usize, threshold: usize) -> (r: bool)
    requires
        threshold <= initial_size,
    ensures
        r == spec_at_limit(my_size as nat, work_count as nat, initial_size as nat, threshold as nat),
{
    let total_work = initial_size - threshold;
    work_count >= total_work || my_size >= total_work - work_count
}

impl<'a, P: Producer> ComposedCounterProducer<'a, P> {
    /// Whether the work done so far and this piece cover the total work
    /// minus the threshold (see `reaches_limit`). The count of work done is
    /// read from the shared counter, which other threads update: whatever
    /// the value read, the answer is yes where the piece alone covers that
    /// much.
    pub fn at_limit(&self) -> (r: bool)
        requires
            self.wf(),
        ensures
            self.base.complete() && piece_at_limit(self.base.spec_sizes().0, self.initial_size, self.threshold)
                ==> r,
    {
        let done = self.work_count.load(Ordering::Relaxed);
        self.at_limit_given(done)
    }

    /// Whether `done`, the count of work done as read from the shared
    /// counter, and this piece cover the total work minus the threshold.
    pub fn at_limit_given(&self, done: u64) -> (r: bool)
        requires
            self.wf(),
        ensures
            self.base.complete() ==> r == spec_at_limit(
                self.base.spec_sizes().0 as nat,
                done as usize as nat,
                self.initial_size as nat,
                self.threshold as nat,
            ),
            self.base.complete() && piece_at_limit(self.base.spec_sizes().0, self.initial_size, self.threshold)
                ==> r,
    {
        let (my_size, _) = self.base.sizes();
        reaches_limit(my_size, count_as_usize(done), self.initial_size, self.threshold)
    }

    /// Whether to divide, given `done`, the count of work done as read from
    /// the shared counter, and `allowed`, whether parallelism was read as
    /// allowed on the running thread: never where it is not; else where the
    /// base asks, or where the work is at its limit (see `at_limit_given`)
    /// and the piece holds more than one item.
    pub fn should_be_divided_given(&self, done: u64, allowed: bool) -> (r: bool)
        requires
            self.wf(),
        ensures
            !allowed ==> !r,
            allowed && self.base.must_divide() ==> r,
            allowed && self.base.complete() && self.base.spec_sizes().0 > 1 && spec_at_limit(
                self.base.spec_sizes().0 as nat,
                done as usize as nat,
                self.initial_size as nat,
                self.threshold as nat,
            ) ==> r,
            r ==> self.base.can_divide(),
    {
        proof {
            self.base.lemma_always_divisible();
        }
        let (size, _) = self.base.sizes();
        let at_limit = self.at_limit_given(done) && size > 1;
        let base = self.base.should_be_divided();
        allowed && (at_limit || base)
    }
}

impl<'a, P: Producer> ComposedCounterProducer<'a, P> {
    /// Folds all the items on this thread. While it does, parallelism is
    /// switched off on the thread if the piece is big (more than one item), and
    /// restored afterwards.
    pub fn fold<B, F: Fn(B, P::Item) -> B>(self, init: B, f: &F) -> (r: B)
        requires
            self.wf(),
            deterministic2(*f),
        ensures
            self.complete() ==> r == fold_with(*f, init, self.items()),
    {
        let (next_work_size, _) = self.base.sizes();
        let allowed = self.allow_parallelism.load(Ordering::Relaxed);
        if allowed {
            if next_work_size > 1 {
                self.allow_parallelism.store(false, Ordering::Relaxed);
            }
        }
        self.work_count.fetch_add(size_as_count(next_work_size), Ordering::Relaxed);
        let flag = self.allow_parallelism;
        let result = fold_producer(self.base, f, init);
        flag.store(allowed, Ordering::Relaxed);
        result
    }
}

/// A piece under the work-counting composition policy.
pub struct ComposedCounterProducer<'a, I> {
    pub base: I,
    pub initial_size: usize,
    pub work_count: &'a AtomicU64,
    pub threshold: usize,
    pub allow_parallelism: &'a AtomicBool,
}

impl<'a, P: Producer> Divisible for ComposedCounterProducer<'a, P> {
    type Item = P::Item;

    open spec fn wf(&self) -> bool {
        self.base.wf() && self.base.always_divisible() && self.threshold <= self.initial_size
    }

    open spec fn items(&self) -> Seq<P::Item> {
        self.base.items()
    }

    open spec fn spec_len(&self) -> nat {
        self.base.spec_len()
    }

    open spec fn splits_items(&self) -> bool {
        self.base.splits_items()
    }

    open spec fn complete(&self) -> bool {
        self.base.complete()
    }

    open spec fn double_ended(&self) -> bool {
        false
    }

    open spec fn can_preview(&self) -> bool {
        self.base.can_preview()
    }

    open spec fn can_divide(&self) -> bool {
        self.base.can_divide()
    }

    open spec fn can_divide_at(&self) -> bool {
        self.base.can_divide_at()
    }

    open spec fn exact(&self) -> bool {
        self.base.exact()
    }

    proof fn lemma_exact(&self) {
        self.base.lemma_exact();
    }

    open spec fn always_divisible(&self) -> bool {
        self.base.always_divisible()
    }

    proof fn lemma_always_divisible(&self) {
        self.base.lemma_always_divisible();
    }

    open spec fn may_divide(&self) -> bool {
        true
    }

    open spec fn must_divide(&self) -> bool {
        false
    }

    fn should_be_divided(&self) -> (r: bool) {
        proof {
            self.base.lemma_always_divisible();
        }
        let done = self.work_count.load(Ordering::Relaxed);
        let allowed = self.allow_parallelism.load(Ordering::Relaxed);
        self.should_be_divided_given(done, allowed)
    }

    fn divide(self) -> (r: (Self, Self))
        ensures
            r.0.initial_size == self.initial_size && r.1.initial_size == self.initial_size,
            r.0.threshold == self.threshold && r.1.threshold == self.threshold,
            r.0.work_count == self.work_count && r.1.work_count == self.work_count,
    {
        proof {
            self.base.lemma_always_divisible();
        }
        let (left, right) = self.base.divide();
        (
            ComposedCounterProducer { base: left, initial_size: self.initial_size, work_count: self.work_count, threshold: self.threshold, allow_parallelism: self.allow_parallelism },
            ComposedCounterProducer { base: right, initial_size: self.initial_size, work_count: self.work_count, threshold: self.threshold, allow_parallelism: self.allow_parallelism },
        )
    }

    fn divide_at(self, index: usize) -> (r: (Self, Self))
        ensures
            r.0.initial_size == self.initial_size && r.1.initial_size == self.initial_size,
            r.0.threshold == self.threshold && r.1.threshold == self.threshold,
            r.0.work_count == self.work_count && r.1.work_count == self.work_count,
    {
        proof {
            self.base.lemma_always_divisible();
        }
        let (left, right) = self.base.divide_at(index);
        (
            ComposedCounterProducer { base: left, initial_size: self.initial_size, work_count: self.work_count, threshold: self.threshold, allow_parallelism: self.allow_parallelism },
            ComposedCounterProducer { base: right, initial_size: self.initial_size, work_count: self.work_count, threshold: self.threshold, allow_parallelism: self.allow_parallelism },
        )
    }
}

impl<'a, P: Producer> Producer for ComposedCounterProducer<'a, P> {
    open spec fn spec_sizes(&self) -> (usize, Option<usize>) {
        self.base.spec_sizes()
    }

    fn next(&mut self) -> (r: Option<P::Item>) {
        self.base.next()
    }

    fn next_back(&mut self) -> (r: Option<P::Item>) {
        None
    }

    fn sizes(&self) -> (r: (usize, Option<usize>)) {
        self.base.sizes()
    }

    fn length(&self) -> (r: usize) {
        self.base.length()
    }

    fn preview(&self, index: usize) -> (r: P::Item) {
        self.base.preview(index)
    }
}


} // verus!
