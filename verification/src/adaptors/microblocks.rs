//! Block sizes for the adaptive scheduler.
use vstd::prelude::*;
use crate::traits::{Divisible, Producer};

verus! {

/// Carries the bounds on the sizes of the blocks that the adaptive
/// scheduler works by.
pub struct MicroBlockSizes<I> {
    pub inner: I,
    pub lower: usize,
    pub upper: usize,
}

impl<P: Producer> Divisible for MicroBlockSizes<P> {
    type Item = P::Item;

    open spec fn wf(&self) -> bool {
        self.inner.wf()
    }

    open spec fn items(&self) -> Seq<P::Item> {
        self.inner.items()
    }

    open spec fn spec_len(&self) -> nat {
        self.inner.spec_len()
    }

    open spec fn splits_items(&self) -> bool {
        self.inner.splits_items()
    }

    open spec fn complete(&self) -> bool {
        self.inner.complete()
    }

    open spec fn double_ended(&self) -> bool {
        false
    }

    open spec fn can_preview(&self) -> bool {
        self.inner.can_preview()
    }

    open spec fn can_divide(&self) -> bool {
        self.inner.can_divide()
    }

    open spec fn can_divide_at(&self) -> bool {
        self.inner.can_divide_at()
    }

    open spec fn exact(&self) -> bool {
        self.inner.exact()
    }

    proof fn lemma_exact(&self) {
        self.inner.lemma_exact();
    }

    open spec fn always_divisible(&self) -> bool {
        self.inner.always_divisible()
    }

    proof fn lemma_always_divisible(&self) {
        self.inner.lemma_always_divisible();
    }

    open spec fn may_divide(&self) -> bool {
        self.inner.may_divide()
    }

    open spec fn must_divide(&self) -> bool {
        self.inner.must_divide()
    }

    fn should_be_divided(&self) -> (r: bool) {
        self.inner.should_be_divided()
    }

    fn divide(self) -> (r: (Self, Self))
        ensures
            r.0.lower == self.lower && r.0.upper == self.upper,
            r.1.lower == self.lower && r.1.upper == self.upper,
    {
        let (left, right) = self.inner.divide();
        (MicroBlockSizes { inner: left, lower: self.lower, upper: self.upper }, MicroBlockSizes { inner: right, lower: self.lower, upper: self.upper })
    }

    fn divide_at(self, index: usize) -> (r: (Self, Self))
        ensures
            r.0.lower == self.lower && r.0.upper == self.upper,
            r.1.lower == self.lower && r.1.upper == self.upper,
    {
        let (left, right) = self.inner.divide_at(index);
        (MicroBlockSizes { inner: left, lower: self.lower, upper: self.upper }, MicroBlockSizes { inner: right, lower: self.lower, upper: self.upper })
    }
}

impl<P: Producer> Producer for MicroBlockSizes<P> {
    open spec fn spec_sizes(&self) -> (usize, Option<usize>) {
        self.inner.spec_sizes()
    }

    fn next(&mut self) -> (r: Option<P::Item>) {
        self.inner.next()
    }

    fn next_back(&mut self) -> (r: Option<P::Item>) {
        None
    }

    fn sizes(&self) -> (r: (usize, Option<usize>)) {
        self.inner.sizes()
    }

    fn length(&self) -> (r: usize) {
        self.inner.length()
    }

    fn preview(&self, index: usize) -> (r: P::Item) {
        self.inner.preview(index)
    }
}

impl<P> MicroBlockSizes<P> {
    /// The bounds on block sizes, lower first.
    pub fn micro_block_sizes(&self) -> (r: (usize, usize))
        ensures
            r == (self.lower, self.upper),
    {
        (self.lower, self.upper)
    }
}

} // verus!
