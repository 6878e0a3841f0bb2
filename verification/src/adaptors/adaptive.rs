//! Adaptive scheduling.
use vstd::prelude::*;
use crate::traits::{Divisible, Producer};

verus! {

/// Asks for the adaptive scheduler: work is done by blocks of growing size,
/// and divided between blocks.
pub struct Adaptive<I> {
    pub base: I,
}

impl<P: Producer> Divisible for Adaptive<P> {
    type Item = P::Item;

    open spec fn wf(&self) -> bool {
        self.base.wf()
    }

    open spec fn items(&self) -> Seq<P::Item> {
        self.base.items()
    }

    open spec fn spec_len(&self) -> nat {
        self.base.spec_len()
    }

    open spec fn splits_items(&self) -> bool {
        self.base.splits_items()
    }

    open spec fn complete(&self) -> bool {
        self.base.complete()
    }

    open spec fn double_ended(&self) -> bool {
        false
    }

    open spec fn can_preview(&self) -> bool {
        self.base.can_preview()
    }

    open spec fn can_divide(&self) -> bool {
        self.base.can_divide()
    }

    open spec fn can_divide_at(&self) -> bool {
        self.base.can_divide_at()
    }

    open spec fn exact(&self) -> bool {
        self.base.exact()
    }

    proof fn lemma_exact(&self) {
        self.base.lemma_exact();
    }

    open spec fn always_divisible(&self) -> bool {
        self.base.always_divisible()
    }

    proof fn lemma_always_divisible(&self) {
        self.base.lemma_always_divisible();
    }

    open spec fn may_divide(&self) -> bool {
        self.base.may_divide()
    }

    open spec fn must_divide(&self) -> bool {
        self.base.must_divide()
    }

    fn should_be_divided(&self) -> (r: bool) {
        self.base.should_be_divided()
    }

    fn divide(self) -> (r: (Self, Self)) {
        let (left, right) = self.base.divide();
        (Adaptive { base: left }, Adaptive { base: right })
    }

    fn divide_at(self, index: usize) -> (r: (Self, Self)) {
        let (left, right) = self.base.divide_at(index);
        (Adaptive { base: left }, Adaptive { base: right })
    }
}

impl<P: Producer> Producer for Adaptive<P> {
    open spec fn spec_sizes(&self) -> (usize, Option<usize>) {
        self.base.spec_sizes()
    }

    fn next(&mut self) -> (r: Option<P::Item>) {
        self.base.next()
    }

    fn next_back(&mut self) -> (r: Option<P::Item>) {
        None
    }

    fn sizes(&self) -> (r: (usize, Option<usize>)) {
        self.base.sizes()
    }

    fn length(&self) -> (r: usize) {
        self.base.length()
    }

    fn preview(&self, index: usize) -> (r: P::Item) {
        self.base.preview(index)
    }
}


} // verus!
