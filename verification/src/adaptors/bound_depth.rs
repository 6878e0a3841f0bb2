//! Bounds the depth of the division tree.
use vstd::prelude::*;
use crate::division::Division;
use crate::traits::{Divisible, Producer};
use vstd::arithmetic::power2::{lemma_pow2_pos, lemma_pow2_unfold, pow2};

verus! {

/// Limits the depth of divisions: a piece may be divided only while its
/// `limit` of further divisions is not exhausted.
pub struct BoundDepth<I> {
    pub base: I,
    pub limit: u32,
}

impl<P: Producer> Divisible for BoundDepth<P> {
    type Item = P::Item;

    open spec fn wf(&self) -> bool {
        self.base.wf()
    }

    open spec fn items(&self) -> Seq<P::Item> {
        self.base.items()
    }

    open spec fn spec_len(&self) -> nat {
        self.base.spec_len()
    }

    open spec fn splits_items(&self) -> bool {
        self.base.splits_items()
    }

    open spec fn complete(&self) -> bool {
        self.base.complete()
    }

    open spec fn double_ended(&self) -> bool {
        false
    }

    open spec fn can_preview(&self) -> bool {
        self.base.can_preview()
    }

    open spec fn can_divide(&self) -> bool {
        self.base.can_divide()
    }

    open spec fn can_divide_at(&self) -> bool {
        self.base.can_divide_at()
    }

    open spec fn exact(&self) -> bool {
        self.base.exact()
    }

    proof fn lemma_exact(&self) {
        self.base.lemma_exact();
    }

    open spec fn always_divisible(&self) -> bool {
        self.base.always_divisible()
    }

    proof fn lemma_always_divisible(&self) {
        self.base.lemma_always_divisible();
    }

    open spec fn may_divide(&self) -> bool {
        self.limit > 0 && self.base.may_divide()
    }

    open spec fn must_divide(&self) -> bool {
        self.limit > 0 && self.base.must_divide()
    }

    fn should_be_divided(&self) -> (r: bool) {
        self.limit > 0 && self.base.should_be_divided()
    }

    fn divide(self) -> (r: (Self, Self))
        ensures
            r.0.limit == (if self.limit > 0 { (self.limit - 1) as u32 } else { 0 }),
            r.1.limit == r.0.limit,
    {
        let (left, right) = self.base.divide();
        (BoundDepth { base: left, limit: self.limit.saturating_sub(1) }, BoundDepth { base: right, limit: self.limit.saturating_sub(1) })
    }

    fn divide_at(self, index: usize) -> (r: (Self, Self))
        ensures
            r.0.limit == (if self.limit > 0 { (self.limit - 1) as u32 } else { 0 }),
            r.1.limit == r.0.limit,
    {
        let (left, right) = self.base.divide_at(index);
        (BoundDepth { base: left, limit: self.limit.saturating_sub(1) }, BoundDepth { base: right, limit: self.limit.saturating_sub(1) })
    }
}

impl<P: Producer> Producer for BoundDepth<P> {
    open spec fn spec_sizes(&self) -> (usize, Option<usize>) {
        self.base.spec_sizes()
    }

    fn next(&mut self) -> (r: Option<P::Item>) {
        self.base.next()
    }

    fn next_back(&mut self) -> (r: Option<P::Item>) {
        None
    }

    fn sizes(&self) -> (r: (usize, Option<usize>)) {
        self.base.sizes()
    }

    fn length(&self) -> (r: usize) {
        self.base.length()
    }

    fn preview(&self, index: usize) -> (r: P::Item) {
        self.base.preview(index)
    }
}

/// Whether each division in `t` gives both halves one division less to
/// spend, as `divide` and `divide_at` do.
pub open spec fn spends_limit<P: Producer>(t: Division<BoundDepth<P>>) -> bool
    decreases t,
{
    match t {
        Division::Whole(_) => true,
        Division::Halves(p, l, r) => {
            &&& l.root().limit == (if p.limit > 0 { (p.limit - 1) as u32 } else { 0 })
            &&& r.root().limit == l.root().limit
            &&& spends_limit(*l)
            &&& spends_limit(*r)
        },
    }
}

/// No piece is divided more than `limit` times below the top, so a piece
/// with limit `L` ends as at most `2^L` pieces: division stops once the
/// limit is spent.
pub proof fn lemma_bounded_pieces<P: Producer>(t: Division<BoundDepth<P>>)
    requires
        t.as_asked(),
        spends_limit(t),
    ensures
        t.depth() <= t.root().limit,
        t.pieces() <= pow2(t.root().limit as nat),
    decreases t,
{
    match t {
        Division::Whole(_) => {
            lemma_pow2_pos(t.root().limit as nat);
        },
        Division::Halves(p, l, r) => {
            lemma_bounded_pieces(*l);
            lemma_bounded_pieces(*r);
            lemma_pow2_unfold(p.limit as nat);
        },
    }
}

} // verus!
