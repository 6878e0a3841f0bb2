//! Slices as producers of their values.
use vstd::prelude::*;
use crate::traits::{Divisible, Producer};

verus! {

/// Yields the values of a slice, in order.
pub struct SliceProducer<'a, T> {
    pub slice: &'a [T],
}

impl<'a, T: Copy> Divisible for SliceProducer<'a, T> {
    type Item = T;

    open spec fn items(&self) -> Seq<T> {
        self.slice@
    }

    open spec fn splits_items(&self) -> bool {
        true
    }

    open spec fn wf(&self) -> bool {
        true
    }

    open spec fn spec_len(&self) -> nat {
        self.slice@.len()
    }

    open spec fn complete(&self) -> bool {
        true
    }

    open spec fn can_preview(&self) -> bool {
        true
    }

    open spec fn double_ended(&self) -> bool {
        true
    }

    open spec fn can_divide(&self) -> bool {
        true
    }

    open spec fn can_divide_at(&self) -> bool {
        true
    }

    open spec fn exact(&self) -> bool {
        true
    }

    proof fn lemma_exact(&self) {
    }

    open spec fn always_divisible(&self) -> bool {
        true
    }

    proof fn lemma_always_divisible(&self) {
    }

    open spec fn may_divide(&self) -> bool {
        self.slice@.len() >= 2
    }

    open spec fn must_divide(&self) -> bool {
        self.slice@.len() >= 2
    }

    /// Worth dividing while it holds at least two values.
    fn should_be_divided(&self) -> (r: bool)
        ensures
            r == (self.slice@.len() >= 2),
    {
        self.slice.len() >= 2
    }

    /// Cuts in the middle.
    fn divide(self) -> (r: (Self, Self))
        ensures
            r.0.slice@ + r.1.slice@ == self.slice@,
            r.0.slice@.len() == self.slice@.len() / 2,
    {
        let mid = self.slice.len() / 2;
        self.divide_at(mid)
    }

    fn divide_at(self, index: usize) -> (r: (Self, Self))
        ensures
            r.0.slice@ == self.slice@.take(index as int),
            r.1.slice@ == self.slice@.skip(index as int),
            r.0.slice@ + r.1.slice@ == self.slice@,
    {
        let (left, right) = self.slice.split_at(index);
        proof {
            assert(left@ + right@ =~= self.slice@);
            assert(left@ =~= self.slice@.take(index as int));
            assert(right@ =~= self.slice@.skip(index as int));
        }
        (SliceProducer { slice: left }, SliceProducer { slice: right })
    }
}

impl<'a, T: Copy> Producer for SliceProducer<'a, T> {
    open spec fn spec_sizes(&self) -> (usize, Option<usize>) {
        (self.slice@.len() as usize, Some(self.slice@.len() as usize))
    }

    fn next(&mut self) -> (r: Option<T>) {
        if self.slice.len() == 0 {
            None
        } else {
            let x = self.slice[0];
            let rest = &self.slice[1..self.slice.len()];
            proof {
                assert(rest@ =~= old(self).slice@.drop_first());
            }
            self.slice = rest;
            Some(x)
        }
    }

    fn next_back(&mut self) -> (r: Option<T>) {
        let n = self.slice.len();
        if n == 0 {
            None
        } else {
            let x = self.slice[n - 1];
            let rest = &self.slice[0..n - 1];
            proof {
                assert(rest@ =~= old(self).slice@.drop_last());
            }
            self.slice = rest;
            Some(x)
        }
    }

    fn sizes(&self) -> (r: (usize, Option<usize>))
        ensures
            r.0 == self.items().len(),
            r.1 == Some(self.items().len() as usize),
    {
        let n = self.slice.len();
        (n, Some(n))
    }

    fn length(&self) -> (r: usize) {
        self.slice.len()
    }

    fn preview(&self, index: usize) -> (r: T) {
        self.slice[index]
    }
}

} // verus!
