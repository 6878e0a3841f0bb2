//! Forces the first levels of the division tree.
use vstd::prelude::*;
use crate::traits::{Divisible, Producer};

verus! {

/// Forces divisions: a piece is divided while its `limit` of forced
/// divisions is not exhausted, and afterwards when its base says so.
pub struct ForceDepth<I> {
    pub base: I,
    pub limit: u32,
}

impl<P: Producer> Divisible for ForceDepth<P> {
    type Item = P::Item;

    open spec fn wf(&self) -> bool {
        self.base.wf() && (self.limit > 0 ==> self.base.always_divisible())
    }

    open spec fn items(&self) -> Seq<P::Item> {
        self.base.items()
    }

    open spec fn spec_len(&self) -> nat {
        self.base.spec_len()
    }

    open spec fn splits_items(&self) -> bool {
        self.base.splits_items()
    }

    open spec fn complete(&self) -> bool {
        self.base.complete()
    }

    open spec fn double_ended(&self) -> bool {
        false
    }

    open spec fn can_preview(&self) -> bool {
        self.base.can_preview()
    }

    open spec fn can_divide(&self) -> bool {
        self.base.can_divide() || (self.limit > 0 && self.base.always_divisible())
    }

    open spec fn can_divide_at(&self) -> bool {
        self.base.can_divide_at() || (self.limit > 0 && self.base.always_divisible())
    }

    open spec fn exact(&self) -> bool {
        self.base.exact()
    }

    proof fn lemma_exact(&self) {
        self.base.lemma_exact();
    }

    open spec fn always_divisible(&self) -> bool {
        self.base.always_divisible()
    }

    proof fn lemma_always_divisible(&self) {
        self.base.lemma_always_divisible();
    }

    open spec fn may_divide(&self) -> bool {
        self.limit > 0 || self.base.may_divide()
    }

    open spec fn must_divide(&self) -> bool {
        self.limit > 0 || self.base.must_divide()
    }

    fn should_be_divided(&self) -> (r: bool) {
        proof {
            if self.limit > 0 {
                self.base.lemma_always_divisible();
            }
        }
        self.limit > 0 || (self.limit == 0 && self.base.should_be_divided())
    }

    fn divide(self) -> (r: (Self, Self))
        ensures
            r.0.limit == (if self.limit > 0 { (self.limit - 1) as u32 } else { 0 }),
            r.1.limit == r.0.limit,
    {
        proof {
            if self.limit > 0 {
                self.base.lemma_always_divisible();
            }
        }
        let (left, right) = self.base.divide();
        (ForceDepth { base: left, limit: self.limit.saturating_sub(1) }, ForceDepth { base: right, limit: self.limit.saturating_sub(1) })
    }

    fn divide_at(self, index: usize) -> (r: (Self, Self))
        ensures
            r.0.limit == (if self.limit > 0 { (self.limit - 1) as u32 } else { 0 }),
            r.1.limit == r.0.limit,
    {
        proof {
            if self.limit > 0 {
                self.base.lemma_always_divisible();
            }
        }
        let (left, right) = self.base.divide_at(index);
        (ForceDepth { base: left, limit: self.limit.saturating_sub(1) }, ForceDepth { base: right, limit: self.limit.saturating_sub(1) })
    }
}

impl<P: Producer> Producer for ForceDepth<P> {
    open spec fn spec_sizes(&self) -> (usize, Option<usize>) {
        self.base.spec_sizes()
    }

    fn next(&mut self) -> (r: Option<P::Item>) {
        self.base.next()
    }

    fn next_back(&mut self) -> (r: Option<P::Item>) {
        None
    }

    fn sizes(&self) -> (r: (usize, Option<usize>)) {
        self.base.sizes()
    }

    fn length(&self) -> (r: usize) {
        self.base.length()
    }

    fn preview(&self, index: usize) -> (r: P::Item) {
        self.base.preview(index)
    }
}


} // verus!
