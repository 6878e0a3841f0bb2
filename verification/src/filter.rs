//! Keeps the items a predicate accepts, stopping at the first rejected one.
use vstd::prelude::*;
use crate::adaptors::filter::{filtered, keeps, lemma_filtered_add, lemma_filtered_len};
use crate::closures::{apply1, call1, deterministic1};
use crate::traits::{Divisible, Producer};

verus! {

/// Keeps the items that `filter` accepts; the first rejected item ends
/// the iteration early.
pub struct Filter<I, F> {
    pub base: I,
    pub filter: F,
}

impl<P: Producer, F: Fn(&P::Item) -> bool + Copy> Divisible for Filter<P, F> {
    type Item = P::Item;

    open spec fn wf(&self) -> bool {
        self.base.wf() && deterministic1(self.filter)
    }

    open spec fn items(&self) -> Seq<P::Item> {
        filtered(self.base.items(), keeps(self.filter))
    }

    open spec fn spec_len(&self) -> nat {
        self.base.spec_len()
    }

    open spec fn splits_items(&self) -> bool {
        self.base.splits_items()
    }

    open spec fn complete(&self) -> bool {
        false
    }

    open spec fn double_ended(&self) -> bool {
        false
    }

    open spec fn can_preview(&self) -> bool {
        false
    }

    open spec fn can_divide(&self) -> bool {
        self.base.can_divide()
    }

    open spec fn can_divide_at(&self) -> bool {
        self.base.can_divide_at()
    }

    open spec fn exact(&self) -> bool {
        false
    }

    proof fn lemma_exact(&self) {
        
    }

    open spec fn always_divisible(&self) -> bool {
        self.base.always_divisible()
    }

    proof fn lemma_always_divisible(&self) {
        self.base.lemma_always_divisible();
    }

    open spec fn may_divide(&self) -> bool {
        self.base.may_divide()
    }

    open spec fn must_divide(&self) -> bool {
        self.base.must_divide()
    }

    fn should_be_divided(&self) -> (r: bool) {
        self.base.should_be_divided()
    }

    fn divide(self) -> (r: (Self, Self)) {
        let (left, right) = self.base.divide();
        let l = Filter { base: left, filter: self.filter };
        let r = Filter { base: right, filter: self.filter };
        proof {
            if self.base.splits_items() {
                lemma_filtered_add(l.base.items(), r.base.items(), keeps(self.filter));
                assert(self.items() =~= l.items() + r.items());
            }
        }
        (l, r)
    }

    fn divide_at(self, index: usize) -> (r: (Self, Self)) {
        let (left, right) = self.base.divide_at(index);
        let l = Filter { base: left, filter: self.filter };
        let r = Filter { base: right, filter: self.filter };
        proof {
            if self.base.splits_items() {
                lemma_filtered_add(l.base.items(), r.base.items(), keeps(self.filter));
                assert(self.items() =~= l.items() + r.items());
            }
        }
        (l, r)
    }
}

impl<P: Producer, F: Fn(&P::Item) -> bool + Copy> Producer for Filter<P, F> {
    open spec fn spec_sizes(&self) -> (usize, Option<usize>) {
        (0usize, self.base.spec_sizes().1)
    }

    fn next(&mut self) -> (r: Option<P::Item>)
        ensures
            old(self).base.complete() && old(self).base.items().len() > 0 ==> {
                &&& final(self).base.items() == old(self).base.items().drop_first()
                &&& (r is Some <==> apply1(old(self).filter, &old(self).base.items()[0]))
            },
            final(self).filter == old(self).filter,
    {
        let ghost pred = keeps(self.filter);
        match self.base.next() {
            Some(elem) => {
                if call1(&self.filter, &elem) {
                    Some(elem)
                } else {
                    None
                }
            },
            None => None,
        }
    }

    fn next_back(&mut self) -> (r: Option<P::Item>) {
        None
    }

    fn sizes(&self) -> (r: (usize, Option<usize>))
        ensures
            r.0 == 0,
            self.base.complete() ==> r.1 == self.base.spec_sizes().1,
    {
        let (_, upper) = self.base.sizes();
        proof {
            lemma_filtered_len(self.base.items(), keeps(self.filter));
        }
        (0, upper)
    }

    fn length(&self) -> (r: usize) {
        0
    }

    fn preview(&self, index: usize) -> (r: P::Item) {
        self.base.preview(index)
    }
}


} // verus!
