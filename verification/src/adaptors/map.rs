//! Applies a function to every item.
use vstd::prelude::*;
use crate::closures::{apply1, call1, deterministic1};
use crate::traits::{Divisible, Producer};

verus! {

/// Applies `op` to every item.
pub struct MapProducer<I, F> {
    pub base: I,
    pub op: F,
}

impl<P: Producer, R, F: Fn(P::Item) -> R + Copy> Divisible for MapProducer<P, F> {
    type Item = R;

    open spec fn wf(&self) -> bool {
        self.base.wf() && deterministic1(self.op)
    }

    open spec fn items(&self) -> Seq<R> {
        self.base.items().map_values(|x: P::Item| apply1(self.op, x))
    }

    open spec fn spec_len(&self) -> nat {
        self.base.spec_len()
    }

    open spec fn splits_items(&self) -> bool {
        self.base.splits_items()
    }

    open spec fn complete(&self) -> bool {
        self.base.complete()
    }

    open spec fn double_ended(&self) -> bool {
        false
    }

    open spec fn can_preview(&self) -> bool {
        self.base.can_preview()
    }

    open spec fn can_divide(&self) -> bool {
        self.base.can_divide()
    }

    open spec fn can_divide_at(&self) -> bool {
        self.base.can_divide_at()
    }

    open spec fn exact(&self) -> bool {
        self.base.exact()
    }

    proof fn lemma_exact(&self) {
        self.base.lemma_exact();
    }

    open spec fn always_divisible(&self) -> bool {
        self.base.always_divisible()
    }

    proof fn lemma_always_divisible(&self) {
        self.base.lemma_always_divisible();
    }

    open spec fn may_divide(&self) -> bool {
        self.base.may_divide()
    }

    open spec fn must_divide(&self) -> bool {
        self.base.must_divide()
    }

    fn should_be_divided(&self) -> (r: bool) {
        self.base.should_be_divided()
    }

    fn divide(self) -> (r: (Self, Self)) {
        let (left, right) = self.base.divide();
        let l = MapProducer { base: left, op: self.op };
        let r = MapProducer { base: right, op: self.op };
        proof {
            if self.base.splits_items() {
                assert(self.items() =~= l.items() + r.items());
            }
        }
        (l, r)
    }

    fn divide_at(self, index: usize) -> (r: (Self, Self)) {
        let (left, right) = self.base.divide_at(index);
        let l = MapProducer { base: left, op: self.op };
        let r = MapProducer { base: right, op: self.op };
        proof {
            if self.base.splits_items() {
                assert(self.items() =~= l.items() + r.items());
            }
        }
        (l, r)
    }
}

impl<P: Producer, R, F: Fn(P::Item) -> R + Copy> Producer for MapProducer<P, F> {
    open spec fn spec_sizes(&self) -> (usize, Option<usize>) {
        self.base.spec_sizes()
    }

    fn next(&mut self) -> (r: Option<R>) {
        match self.base.next() {
            Some(x) => {
                let y = call1(&self.op, x);
                proof {
                    assert(self.items() =~= old(self).items().drop_first());
                }
                Some(y)
            },
            None => None,
        }
    }

    fn next_back(&mut self) -> (r: Option<R>) {
        None
    }

    fn sizes(&self) -> (r: (usize, Option<usize>)) {
        self.base.sizes()
    }

    fn length(&self) -> (r: usize) {
        self.base.length()
    }

    fn preview(&self, index: usize) -> (r: R) {
        call1(&self.op, self.base.preview(index))
    }
}


} // verus!
