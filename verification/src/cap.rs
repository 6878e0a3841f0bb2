//! Caps the number of pieces alive at once.
use vstd::prelude::*;
use std::sync::atomic::{AtomicIsize, Ordering};
use crate::traits::{Divisible, Producer};

verus! {

/// Caps the number of pieces alive at once: each piece takes one unit from
/// the shared `limit` while it lives, and a piece may be divided only while
/// units are left.
pub struct Cap<'l, I> {
    pub base: I,
    pub limit: &'l AtomicIsize,
}

impl<'l, P: Producer> Cap<'l, P> {
    /// The producer of the first piece, which takes one unit.
    pub fn producer(self) -> (r: CapProducer<'l, P>)
        ensures
            r.base == self.base,
            r.limit == self.limit,
            r.real_drop,
    {
        self.limit.fetch_sub(1, Ordering::SeqCst);
        CapProducer { base: self.base, limit: self.limit, real_drop: true }
    }
}

impl<'l, P> CapProducer<'l, P> {
    /// Ends the piece: gives its unit back, unless it was divided (its parts
    /// give theirs back instead).
    pub fn release(self) {
        if self.real_drop {
            self.limit.fetch_add(1, Ordering::SeqCst);
        }
    }

    /// Whether the unit taken for a division is kept, given `l`, the count
    /// of units as it stood before it was taken: kept where that count was
    /// not negative, else given back.
    pub fn keep_unit_given(&self, l: isize) -> (r: bool)
        ensures
            r == (l >= 0),
    {
        if l >= 0 {
            true
        } else {
            self.limit.fetch_add(1, Ordering::SeqCst);
            false
        }
    }
}

/// A piece under a cap: `real_drop` tells whether it still holds its unit.
pub struct CapProducer<'l, I> {
    pub base: I,
    pub limit: &'l AtomicIsize,
    pub real_drop: bool,
}

impl<'l, P: Producer> Divisible for CapProducer<'l, P> {
    type Item = P::Item;

    open spec fn wf(&self) -> bool {
        self.base.wf()
    }

    open spec fn items(&self) -> Seq<P::Item> {
        self.base.items()
    }

    open spec fn spec_len(&self) -> nat {
        self.base.spec_len()
    }

    open spec fn splits_items(&self) -> bool {
        self.base.splits_items()
    }

    open spec fn complete(&self) -> bool {
        self.base.complete()
    }

    open spec fn double_ended(&self) -> bool {
        false
    }

    open spec fn can_preview(&self) -> bool {
        self.base.can_preview()
    }

    open spec fn can_divide(&self) -> bool {
        self.base.can_divide()
    }

    open spec fn can_divide_at(&self) -> bool {
        self.base.can_divide_at()
    }

    open spec fn exact(&self) -> bool {
        self.base.exact()
    }

    proof fn lemma_exact(&self) {
        self.base.lemma_exact();
    }

    open spec fn always_divisible(&self) -> bool {
        self.base.always_divisible()
    }

    proof fn lemma_always_divisible(&self) {
        self.base.lemma_always_divisible();
    }

    open spec fn may_divide(&self) -> bool {
        self.base.may_divide()
    }

    open spec fn must_divide(&self) -> bool {
        false
    }

    fn should_be_divided(&self) -> (r: bool) {
        if !self.base.should_be_divided() {
            return false;
        }
        let l = self.limit.fetch_sub(1, Ordering::SeqCst);
        self.keep_unit_given(l)
    }

    fn divide(self) -> (r: (Self, Self))
        ensures
            r.0.limit == self.limit && r.1.limit == self.limit,
            r.0.real_drop && r.1.real_drop,
    {
        let (left, right) = self.base.divide();
        (CapProducer { base: left, limit: self.limit, real_drop: true }, CapProducer { base: right, limit: self.limit, real_drop: true })
    }

    fn divide_at(self, index: usize) -> (r: (Self, Self))
        ensures
            r.0.limit == self.limit && r.1.limit == self.limit,
            r.0.real_drop && r.1.real_drop,
    {
        let (left, right) = self.base.divide_at(index);
        (CapProducer { base: left, limit: self.limit, real_drop: true }, CapProducer { base: right, limit: self.limit, real_drop: true })
    }
}

impl<'l, P: Producer> Producer for CapProducer<'l, P> {
    open spec fn spec_sizes(&self) -> (usize, Option<usize>) {
        self.base.spec_sizes()
    }

    fn next(&mut self) -> (r: Option<P::Item>) {
        self.base.next()
    }

    fn next_back(&mut self) -> (r: Option<P::Item>) {
        None
    }

    fn sizes(&self) -> (r: (usize, Option<usize>)) {
        self.base.sizes()
    }

    fn length(&self) -> (r: usize) {
        self.base.length()
    }

    fn preview(&self, index: usize) -> (r: P::Item) {
        self.base.preview(index)
    }
}


} // verus!
