//! A sequential producer that can be eaten in several bites.
use vstd::prelude::*;
use crate::adaptors::fold::{fold_with, lemma_fold_with_push};
use crate::closures::{call2, deterministic2};
use crate::traits::{Divisible, Producer};

verus! {

/// Yields the items of `base`, but no more than `limit` before the limit
/// is set again: it can be folded by blocks.
pub struct Blocked<I> {
    pub base: I,
    pub limit: usize,
}

impl<P: Producer> Blocked<P> {
    /// Wraps `iterator`, with no item allowed until a limit is set.
    pub fn new(iterator: P) -> (r: Self)
        ensures
            r.base == iterator,
            r.limit == 0,
    {
        Blocked { base: iterator, limit: 0 }
    }

    /// Whether no work is left: the upper bound of the base is zero.
    pub fn completed(&self) -> (r: bool)
        requires
            self.base.wf(),
        ensures
            r && self.base.complete() ==> self.base.spec_len() == 0,
            self.base.complete() ==> (r <==> self.base.spec_sizes().1 == Some(0usize)),
    {
        let (_, upper) = self.base.sizes();
        match upper {
            Some(u) => u == 0,
            None => false,
        }
    }

    /// Folds the next `limit` items with `fold_op`, from `init` (fewer where
    /// fewer are left).
    pub fn partial_fold<T, F: Fn(T, P::Item) -> T>(&mut self, init: T, fold_op: &F, limit: usize) -> (r: T)
        requires
            old(self).base.wf(),
            deterministic2(*fold_op),
        ensures
            final(self).base.wf(),
            final(self).limit == 0,
            final(self).base.complete() == old(self).base.complete(),
            old(self).base.complete() ==> {
                let k = if limit < old(self).base.items().len() {
                    limit as int
                } else {
                    old(self).base.items().len() as int
                };
                &&& r == fold_with(*fold_op, init, old(self).base.items().take(k))
                &&& final(self).base.items() == old(self).base.items().skip(k)
            },
    {
        let ghost all = self.base.items();
        let ghost complete = self.base.complete();
        self.limit = limit;
        let mut acc = init;
        let ghost mut consumed: int = 0;
        proof {
            assert(all.take(0) =~= Seq::<P::Item>::empty());
            assert(all.skip(0) =~= all);
        }
        while self.limit > 0
            invariant_except_break
                consumed + self.limit == limit,
            invariant
                self.base.wf(),
                deterministic2(*fold_op),
                all == old(self).base.items(),
                complete == old(self).base.complete(),
                self.base.complete() == complete,
                0 <= consumed <= limit,
                complete ==> consumed <= all.len(),
                complete ==> self.base.items() == all.skip(consumed),
                complete ==> acc == fold_with(*fold_op, init, all.take(consumed)),
            ensures
                self.limit == 0,
                complete ==> consumed == (if limit < all.len() {
                    limit as int
                } else {
                    all.len() as int
                }),
            decreases self.limit,
        {
            self.limit = self.limit - 1;
            match self.base.next() {
                Some(x) => {
                    proof {
                        if complete {
                            assert(all.take(consumed).push(x) =~= all.take(consumed + 1));
                            lemma_fold_with_push(*fold_op, init, all.take(consumed), x);
                            assert(self.base.items() =~= all.skip(consumed + 1));
                        }
                        consumed = consumed + 1;
                    }
                    acc = call2(fold_op, acc, x);
                },
                None => {
                    self.limit = 0;
                    break ;
                },
            }
        }
        acc
    }
}

impl<P: Producer> Divisible for Blocked<P> {
    type Item = P::Item;

    open spec fn wf(&self) -> bool {
        self.base.wf()
    }

    open spec fn items(&self) -> Seq<P::Item> {
        self.base.items()
    }

    open spec fn spec_len(&self) -> nat {
        self.base.spec_len()
    }

    open spec fn splits_items(&self) -> bool {
        self.base.splits_items()
    }

    /// It stops where its limit does.
    open spec fn complete(&self) -> bool {
        false
    }

    open spec fn double_ended(&self) -> bool {
        false
    }

    open spec fn can_preview(&self) -> bool {
        self.base.can_preview()
    }

    open spec fn can_divide(&self) -> bool {
        self.base.can_divide()
    }

    open spec fn can_divide_at(&self) -> bool {
        self.base.can_divide_at()
    }

    open spec fn exact(&self) -> bool {
        self.base.exact()
    }

    proof fn lemma_exact(&self) {
        self.base.lemma_exact();
    }

    open spec fn always_divisible(&self) -> bool {
        self.base.always_divisible()
    }

    proof fn lemma_always_divisible(&self) {
        self.base.lemma_always_divisible();
    }

    open spec fn may_divide(&self) -> bool {
        self.base.may_divide()
    }

    open spec fn must_divide(&self) -> bool {
        self.base.must_divide()
    }

    fn should_be_divided(&self) -> (r: bool) {
        self.base.should_be_divided()
    }

    /// The parts start with no item allowed.
    fn divide(self) -> (r: (Self, Self))
        ensures
            r.0.limit == 0 && r.1.limit == 0,
    {
        let (left, right) = self.base.divide();
        (Blocked::new(left), Blocked::new(right))
    }

    /// The parts start with no item allowed.
    fn divide_at(self, index: usize) -> (r: (Self, Self))
        ensures
            r.0.limit == 0 && r.1.limit == 0,
    {
        let (left, right) = self.base.divide_at(index);
        (Blocked::new(left), Blocked::new(right))
    }
}

impl<P: Producer> Producer for Blocked<P> {
    open spec fn spec_sizes(&self) -> (usize, Option<usize>) {
        self.base.spec_sizes()
    }

    /// Nothing once the limit is reached; else the next item of the base.
    fn next(&mut self) -> (r: Option<P::Item>)
        ensures
            old(self).limit == 0 ==> r is None && final(self).base == old(self).base,
            final(self).limit == (if old(self).limit > 0 {
                (old(self).limit - 1) as usize
            } else {
                0
            }),
            old(self).limit > 0 && old(self).base.complete() && old(self).base.items().len() > 0
                ==> r == Some(old(self).base.items()[0]) && final(self).base.items() == old(
                self,
            ).base.items().drop_first(),
    {
        if self.limit == 0 {
            None
        } else {
            self.limit = self.limit - 1;
            self.base.next()
        }
    }

    fn next_back(&mut self) -> (r: Option<P::Item>) {
        None
    }

    /// The bounds of the base.
    fn sizes(&self) -> (r: (usize, Option<usize>))
        ensures
            self.base.complete() ==> r == self.base.spec_sizes(),
    {
        self.base.sizes()
    }

    fn length(&self) -> (r: usize) {
        self.base.length()
    }

    fn preview(&self, index: usize) -> (r: P::Item) {
        self.base.preview(index)
    }
}

} // verus!
