//! Rayon's scheduling policy.
use vstd::prelude::*;
use crate::traits::{Divisible, Producer};
use crate::pool::{current_num_threads, current_thread_index};

verus! {


/// The counter of the pieces cut from one created by thread `created_by`
/// with `counter`, when the division runs on thread `current`: one less on
/// the same thread, `reset - 1` after a steal (never below 0).
pub open spec fn spec_next_counter(counter: usize, reset: usize, created_by: usize, current: usize) -> usize {
    if current == created_by {
        if counter == 0 {
            0
        } else {
            (counter - 1) as usize
        }
    } else if reset == 0 {
        0
    } else {
        (reset - 1) as usize
    }
}

/// The rule of `spec_next_counter`.
pub fn next_counter(counter: usize, reset: usize, created_by: usize, current: usize) -> (r: usize)
    ensures
        r == spec_next_counter(counter, reset, created_by, current),
{
    if current == created_by {
        if counter == 0 {
            0
        } else {
            counter - 1
        }
    } else {
        reset.saturating_sub(1)
    }
}

/// Whether rayon's policy lets a piece be divided on thread `current`:
/// while its counter is not exhausted, or once it was stolen.
pub open spec fn spec_may_divide(counter: usize, created_by: usize, current: usize) -> bool {
    counter != 0 || created_by != current
}

/// The rule of `spec_may_divide`.
pub fn may_divide(counter: usize, created_by: usize, current: usize) -> (r: bool)
    ensures
        r == spec_may_divide(counter, created_by, current),
{
    counter != 0 || created_by != current
}

/// The thread a call runs on: the worker's index, or `usize::MAX` outside
/// a pool.
pub fn thread_or_max() -> usize {
    match current_thread_index() {
        Some(i) => i,
        None => usize::MAX,
    }
}

/// Rayon's scheduling policy: pieces are divided a bounded number of times
/// on the thread that created them; a piece stolen by another thread gets a
/// fresh budget of `reset_counter` divisions.
pub struct Rayon<I> {
    pub base: I,
    pub reset_counter: usize,
}

impl<P: Producer> Rayon<P> {
    /// The producer that applies the policy to `self.base`; the first piece
    /// counts as created by no worker thread.
    pub fn producer(self) -> (r: RayonProducer<P>)
        ensures
            r.base == self.base,
            r.reset_counter == self.reset_counter,
            r.counter == self.reset_counter,
    {
        RayonProducer {
            base: self.base,
            created_by: current_num_threads(),
            reset_counter: self.reset_counter,
            counter: self.reset_counter,
        }
    }
}

/// A piece under rayon's policy: `counter` divisions are left to it on
/// thread `created_by`.
pub struct RayonProducer<I> {
    pub base: I,
    pub created_by: usize,
    pub reset_counter: usize,
    pub counter: usize,
}

impl<P: Producer> Divisible for RayonProducer<P> {
    type Item = P::Item;

    open spec fn wf(&self) -> bool {
        self.base.wf()
    }

    open spec fn items(&self) -> Seq<P::Item> {
        self.base.items()
    }

    open spec fn spec_len(&self) -> nat {
        self.base.spec_len()
    }

    open spec fn splits_items(&self) -> bool {
        self.base.splits_items()
    }

    open spec fn complete(&self) -> bool {
        self.base.complete()
    }

    open spec fn double_ended(&self) -> bool {
        false
    }

    open spec fn can_preview(&self) -> bool {
        self.base.can_preview()
    }

    open spec fn can_divide(&self) -> bool {
        self.base.can_divide()
    }

    open spec fn can_divide_at(&self) -> bool {
        self.base.can_divide_at()
    }

    open spec fn exact(&self) -> bool {
        self.base.exact()
    }

    proof fn lemma_exact(&self) {
        self.base.lemma_exact();
    }

    open spec fn always_divisible(&self) -> bool {
        self.base.always_divisible()
    }

    proof fn lemma_always_divisible(&self) {
        self.base.lemma_always_divisible();
    }

    open spec fn may_divide(&self) -> bool {
        self.base.may_divide()
    }

    open spec fn must_divide(&self) -> bool {
        self.counter != 0 && self.base.must_divide()
    }

    fn should_be_divided(&self) -> (r: bool) {
        let current = thread_or_max();
        may_divide(self.counter, self.created_by, current) && self.base.should_be_divided()
    }

    fn divide(self) -> (r: (Self, Self))
        ensures
            r.0.reset_counter == self.reset_counter && r.1.reset_counter == self.reset_counter,
            r.0.created_by == r.1.created_by,
            r.0.counter == r.1.counter,
            r.0.counter == spec_next_counter(self.counter, self.reset_counter, self.created_by, r.0.created_by),
    {
        let (left, right) = self.base.divide();
        let current = thread_or_max();
        let new_counter = next_counter(self.counter, self.reset_counter, self.created_by, current);
        (
            RayonProducer { base: left, reset_counter: self.reset_counter, created_by: current, counter: new_counter },
            RayonProducer { base: right, reset_counter: self.reset_counter, created_by: current, counter: new_counter },
        )
    }

    fn divide_at(self, index: usize) -> (r: (Self, Self))
        ensures
            r.0.reset_counter == self.reset_counter && r.1.reset_counter == self.reset_counter,
            r.0.created_by == r.1.created_by,
            r.0.counter == r.1.counter,
            r.0.counter == spec_next_counter(self.counter, self.reset_counter, self.created_by, r.0.created_by),
    {
        let (left, right) = self.base.divide_at(index);
        let current = thread_or_max();
        let new_counter = next_counter(self.counter, self.reset_counter, self.created_by, current);
        (
            RayonProducer { base: left, reset_counter: self.reset_counter, created_by: current, counter: new_counter },
            RayonProducer { base: right, reset_counter: self.reset_counter, created_by: current, counter: new_counter },
        )
    }
}

impl<P: Producer> Producer for RayonProducer<P> {
    open spec fn spec_sizes(&self) -> (usize, Option<usize>) {
        self.base.spec_sizes()
    }

    fn next(&mut self) -> (r: Option<P::Item>) {
        self.base.next()
    }

    fn next_back(&mut self) -> (r: Option<P::Item>) {
        None
    }

    fn sizes(&self) -> (r: (usize, Option<usize>)) {
        self.base.sizes()
    }

    fn length(&self) -> (r: usize) {
        self.base.length()
    }

    fn preview(&self, index: usize) -> (r: P::Item) {
        self.base.preview(index)
    }
}


} // verus!
