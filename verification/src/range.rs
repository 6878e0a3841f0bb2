//! Ranges of integers as producers.
use vstd::prelude::*;
use std::ops::Range;
use crate::traits::{Divisible, Producer};

verus! {

/// The integers from `start` up to `end` (excluded).
pub open spec fn range_items(start: usize, end: usize) -> Seq<usize> {
    Seq::new((end - start) as nat, |i: int| (start + i) as usize)
}

impl Divisible for Range<usize> {
    type Item = usize;

    open spec fn items(&self) -> Seq<usize> {
        range_items(self.start, self.end)
    }

    open spec fn splits_items(&self) -> bool {
        true
    }

    open spec fn wf(&self) -> bool {
        self.start <= self.end
    }

    open spec fn spec_len(&self) -> nat {
        (self.end - self.start) as nat
    }

    open spec fn complete(&self) -> bool {
        true
    }

    open spec fn can_preview(&self) -> bool {
        true
    }

    open spec fn double_ended(&self) -> bool {
        true
    }

    open spec fn can_divide(&self) -> bool {
        true
    }

    open spec fn can_divide_at(&self) -> bool {
        true
    }

    open spec fn exact(&self) -> bool {
        true
    }

    proof fn lemma_exact(&self) {
    }

    open spec fn always_divisible(&self) -> bool {
        true
    }

    proof fn lemma_always_divisible(&self) {
    }

    open spec fn may_divide(&self) -> bool {
        self.end - self.start >= 2
    }

    open spec fn must_divide(&self) -> bool {
        self.end - self.start >= 2
    }

    /// Worth dividing while it holds at least two integers.
    fn should_be_divided(&self) -> (r: bool)
        ensures
            r == (self.end - self.start >= 2),
    {
        self.end - self.start >= 2
    }

    /// Cuts in the middle.
    fn divide(self) -> (r: (Self, Self))
        ensures
            r.0.start == self.start,
            r.0.end == r.1.start,
            r.1.end == self.end,
            r.0.end == self.start + (self.end - self.start) / 2,
    {
        let mid = self.start + (self.end - self.start) / 2;
        (self.start..mid, mid..self.end)
    }

    fn divide_at(self, index: usize) -> (r: (Self, Self))
        ensures
            r.0.start == self.start,
            r.0.end == r.1.start,
            r.1.end == self.end,
    {
        let mid = self.start + index;
        (self.start..mid, mid..self.end)
    }
}

impl Producer for Range<usize> {
    open spec fn spec_sizes(&self) -> (usize, Option<usize>) {
        ((self.end - self.start) as usize, Some((self.end - self.start) as usize))
    }

    fn next(&mut self) -> (r: Option<usize>) {
        if self.start < self.end {
            let s = self.start;
            self.start = s + 1;
            assert(self.items() =~= old(self).items().drop_first());
            Some(s)
        } else {
            None
        }
    }

    fn next_back(&mut self) -> (r: Option<usize>) {
        if self.start < self.end {
            let e = self.end - 1;
            self.end = e;
            assert(self.items() =~= old(self).items().drop_last());
            Some(e)
        } else {
            None
        }
    }

    fn sizes(&self) -> (r: (usize, Option<usize>))
        ensures
            r.0 == self.items().len(),
            r.1 == Some(self.items().len() as usize),
    {
        let n = self.end - self.start;
        (n, Some(n))
    }

    fn length(&self) -> (r: usize) {
        self.end - self.start
    }

    fn preview(&self, index: usize) -> (r: usize) {
        self.start + index
    }
}

} // verus!
