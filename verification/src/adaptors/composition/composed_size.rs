//! Rayon's policy for nested parallel iterators.
use vstd::prelude::*;
use crate::adaptors::rayon_policy::{may_divide, next_counter, spec_next_counter, thread_or_max};
use crate::traits::{Divisible, Producer};

verus! {

/// Rayon's policy for composed iterators: the budget of divisions of a
/// piece is at most the one left to the enclosing computation on the thread
/// that builds it.
pub struct ComposedSize<I> {
    pub base: I,
    pub reset_counter: usize,
}

/// The budget of a new piece: the reset value, but no more than what the
/// enclosing computation has left.
pub fn initial_counter(reset_counter: usize, enclosing: usize) -> (r: usize)
    ensures
        r == (if reset_counter < enclosing { reset_counter } else { enclosing }),
{
    if reset_counter < enclosing {
        reset_counter
    } else {
        enclosing
    }
}

impl<P: Producer> ComposedSize<P> {
    /// The producer that applies the policy to `self.base`, when the
    /// enclosing computation has `enclosing` divisions left on this thread.
    pub fn producer(self, enclosing: usize) -> (r: ComposedSizeProducer<P>)
        ensures
            r.base == self.base,
            r.reset_counter == self.reset_counter,
            r.counter == (if self.reset_counter < enclosing { self.reset_counter } else { enclosing }),
    {
        let counter = initial_counter(self.reset_counter, enclosing);
        ComposedSizeProducer {
            base: self.base,
            reset_counter: self.reset_counter,
            created_by: thread_or_max(),
            counter,
        }
    }
}

/// A piece under the composed rayon policy.
pub struct ComposedSizeProducer<I> {
    pub base: I,
    pub reset_counter: usize,
    pub created_by: usize,
    pub counter: usize,
}

impl<P: Producer> Divisible for ComposedSizeProducer<P> {
    type Item = P::Item;

    open spec fn wf(&self) -> bool {
        self.base.wf()
    }

    open spec fn items(&self) -> Seq<P::Item> {
        self.base.items()
    }

    open spec fn spec_len(&self) -> nat {
        self.base.spec_len()
    }

    open spec fn splits_items(&self) -> bool {
        self.base.splits_items()
    }

    open spec fn complete(&self) -> bool {
        self.base.complete()
    }

    open spec fn double_ended(&self) -> bool {
        self.base.double_ended()
    }

    open spec fn can_preview(&self) -> bool {
        self.base.can_preview()
    }

    open spec fn can_divide(&self) -> bool {
        self.base.can_divide()
    }

    open spec fn can_divide_at(&self) -> bool {
        self.base.can_divide_at()
    }

    open spec fn exact(&self) -> bool {
        self.base.exact()
    }

    proof fn lemma_exact(&self) {
        self.base.lemma_exact();
    }

    open spec fn always_divisible(&self) -> bool {
        self.base.always_divisible()
    }

    proof fn lemma_always_divisible(&self) {
        self.base.lemma_always_divisible();
    }

    open spec fn may_divide(&self) -> bool {
        self.base.may_divide()
    }

    open spec fn must_divide(&self) -> bool {
        self.counter != 0 && self.base.must_divide()
    }

    fn should_be_divided(&self) -> (r: bool) {
        let current = thread_or_max();
        may_divide(self.counter, self.created_by, current) && self.base.should_be_divided()
    }

    fn divide(self) -> (r: (Self, Self))
        ensures
            r.0.reset_counter == self.reset_counter && r.1.reset_counter == self.reset_counter,
            r.0.created_by == r.1.created_by,
            r.0.counter == r.1.counter,
            r.0.counter == spec_next_counter(self.counter, self.reset_counter, self.created_by, r.0.created_by),
    {
        let current = thread_or_max();
        let new_counter = next_counter(self.counter, self.reset_counter, self.created_by, current);
        let (left, right) = self.base.divide();
        (
            ComposedSizeProducer { base: left, reset_counter: self.reset_counter, created_by: current, counter: new_counter },
            ComposedSizeProducer { base: right, reset_counter: self.reset_counter, created_by: current, counter: new_counter },
        )
    }

    fn divide_at(self, index: usize) -> (r: (Self, Self))
        ensures
            r.0.reset_counter == self.reset_counter && r.1.reset_counter == self.reset_counter,
            r.0.created_by == r.1.created_by,
            r.0.counter == r.1.counter,
            r.0.counter == spec_next_counter(self.counter, self.reset_counter, self.created_by, r.0.created_by),
    {
        let current = thread_or_max();
        let new_counter = next_counter(self.counter, self.reset_counter, self.created_by, current);
        let (left, right) = self.base.divide_at(index);
        (
            ComposedSizeProducer { base: left, reset_counter: self.reset_counter, created_by: current, counter: new_counter },
            ComposedSizeProducer { base: right, reset_counter: self.reset_counter, created_by: current, counter: new_counter },
        )
    }
}

impl<P: Producer> Producer for ComposedSizeProducer<P> {
    open spec fn spec_sizes(&self) -> (usize, Option<usize>) {
        self.base.spec_sizes()
    }

    fn next(&mut self) -> (r: Option<P::Item>) {
        self.base.next()
    }

    fn next_back(&mut self) -> (r: Option<P::Item>) {
        self.base.next_back()
    }

    fn sizes(&self) -> (r: (usize, Option<usize>)) {
        self.base.sizes()
    }

    fn length(&self) -> (r: usize) {
        self.base.length()
    }

    fn preview(&self, index: usize) -> (r: P::Item) {
        self.base.preview(index)
    }
}


} // verus!
