//! Division stops below a size.
use vstd::prelude::*;
use crate::traits::{Divisible, Producer};

verus! {

/// Stops dividing pieces that hold at most `limit` items.
pub struct SizeLimit<I> {
    pub base: I,
    pub limit: usize,
}

impl<P: Producer> Divisible for SizeLimit<P> {
    type Item = P::Item;

    open spec fn wf(&self) -> bool {
        self.base.wf()
    }

    open spec fn items(&self) -> Seq<P::Item> {
        self.base.items()
    }

    open spec fn spec_len(&self) -> nat {
        self.base.spec_len()
    }

    open spec fn splits_items(&self) -> bool {
        self.base.splits_items()
    }

    open spec fn complete(&self) -> bool {
        self.base.complete()
    }

    open spec fn double_ended(&self) -> bool {
        self.base.double_ended()
    }

    open spec fn can_preview(&self) -> bool {
        self.base.can_preview()
    }

    open spec fn can_divide(&self) -> bool {
        self.base.can_divide()
    }

    open spec fn can_divide_at(&self) -> bool {
        self.base.can_divide_at()
    }

    open spec fn exact(&self) -> bool {
        self.base.exact()
    }

    proof fn lemma_exact(&self) {
        self.base.lemma_exact();
    }

    open spec fn always_divisible(&self) -> bool {
        self.base.always_divisible()
    }

    proof fn lemma_always_divisible(&self) {
        self.base.lemma_always_divisible();
    }

    open spec fn may_divide(&self) -> bool {
        self.base.may_divide()
    }

    open spec fn must_divide(&self) -> bool {
        self.base.spec_len() > self.limit && self.base.complete() && self.base.must_divide()
    }

    fn should_be_divided(&self) -> (r: bool) {
        let (_, upper) = self.base.sizes();
        let big = match upper {
            Some(s) => s > self.limit,
            None => true,
        };
        big && self.base.should_be_divided()
    }

    fn divide(self) -> (r: (Self, Self))
        ensures
            r.0.limit == self.limit,
            r.1.limit == self.limit,
    {
        let (left, right) = self.base.divide();
        (SizeLimit { base: left, limit: self.limit }, SizeLimit { base: right, limit: self.limit })
    }

    fn divide_at(self, index: usize) -> (r: (Self, Self))
        ensures
            r.0.limit == self.limit,
            r.1.limit == self.limit,
    {
        let (left, right) = self.base.divide_at(index);
        (SizeLimit { base: left, limit: self.limit }, SizeLimit { base: right, limit: self.limit })
    }
}

impl<P: Producer> Producer for SizeLimit<P> {
    open spec fn spec_sizes(&self) -> (usize, Option<usize>) {
        self.base.spec_sizes()
    }

    fn next(&mut self) -> (r: Option<P::Item>) {
        self.base.next()
    }

    fn next_back(&mut self) -> (r: Option<P::Item>) {
        self.base.next_back()
    }

    fn sizes(&self) -> (r: (usize, Option<usize>)) {
        self.base.sizes()
    }

    fn length(&self) -> (r: usize) {
        self.base.length()
    }

    fn preview(&self, index: usize) -> (r: P::Item) {
        self.base.preview(index)
    }
}


} // verus!
