//! Even number of levels in the division tree.
use vstd::prelude::*;
use crate::division::Division;
use crate::traits::{Divisible, Producer};

verus! {

/// Makes every branch of the division tree have an even number of levels:
/// a piece whose `counter` is false (an odd level) is always divided.
pub struct EvenLevels<I> {
    pub base: I,
    pub counter: bool,
}

impl<P: Producer> Divisible for EvenLevels<P> {
    type Item = P::Item;

    open spec fn wf(&self) -> bool {
        self.base.wf() && self.base.always_divisible()
    }

    open spec fn items(&self) -> Seq<P::Item> {
        self.base.items()
    }

    open spec fn spec_len(&self) -> nat {
        self.base.spec_len()
    }

    open spec fn splits_items(&self) -> bool {
        self.base.splits_items()
    }

    open spec fn complete(&self) -> bool {
        self.base.complete()
    }

    open spec fn double_ended(&self) -> bool {
        false
    }

    open spec fn can_preview(&self) -> bool {
        self.base.can_preview()
    }

    open spec fn can_divide(&self) -> bool {
        self.base.can_divide()
    }

    open spec fn can_divide_at(&self) -> bool {
        self.base.can_divide_at()
    }

    open spec fn exact(&self) -> bool {
        self.base.exact()
    }

    proof fn lemma_exact(&self) {
        self.base.lemma_exact();
    }

    open spec fn always_divisible(&self) -> bool {
        self.base.always_divisible()
    }

    proof fn lemma_always_divisible(&self) {
        self.base.lemma_always_divisible();
    }

    open spec fn may_divide(&self) -> bool {
        self.base.may_divide() || !self.counter
    }

    open spec fn must_divide(&self) -> bool {
        self.base.must_divide() || !self.counter
    }

    fn should_be_divided(&self) -> (r: bool) {
        proof {
            self.base.lemma_always_divisible();
        }
        self.base.should_be_divided() || !self.counter
    }

    fn divide(self) -> (r: (Self, Self))
        ensures
            r.0.counter == !self.counter,
            r.1.counter == !self.counter,
    {
        proof {
            self.base.lemma_always_divisible();
        }
        let (left, right) = self.base.divide();
        (EvenLevels { base: left, counter: !self.counter }, EvenLevels { base: right, counter: !self.counter })
    }

    fn divide_at(self, index: usize) -> (r: (Self, Self))
        ensures
            r.0.counter == !self.counter,
            r.1.counter == !self.counter,
    {
        proof {
            self.base.lemma_always_divisible();
        }
        let (left, right) = self.base.divide_at(index);
        (EvenLevels { base: left, counter: !self.counter }, EvenLevels { base: right, counter: !self.counter })
    }
}

impl<P: Producer> Producer for EvenLevels<P> {
    open spec fn spec_sizes(&self) -> (usize, Option<usize>) {
        self.base.spec_sizes()
    }

    fn next(&mut self) -> (r: Option<P::Item>) {
        self.base.next()
    }

    fn next_back(&mut self) -> (r: Option<P::Item>) {
        None
    }

    fn sizes(&self) -> (r: (usize, Option<usize>)) {
        self.base.sizes()
    }

    fn length(&self) -> (r: usize) {
        self.base.length()
    }

    fn preview(&self, index: usize) -> (r: P::Item) {
        self.base.preview(index)
    }
}

impl<P: Producer> EvenLevels<P> {
    /// Starts at an even level.
    pub fn new(base: P) -> (r: Self)
        ensures
            r.base == base,
            r.counter,
    {
        EvenLevels { base, counter: true }
    }
}

/// Whether each division in `t` flips the counter of both halves, as
/// `divide` and `divide_at` do.
pub open spec fn flips_counter<P: Producer>(t: Division<EvenLevels<P>>) -> bool
    decreases t,
{
    match t {
        Division::Whole(_) => true,
        Division::Halves(p, l, r) => {
            &&& l.root().counter == !p.counter
            &&& r.root().counter == !p.counter
            &&& flips_counter(*l)
            &&& flips_counter(*r)
        },
    }
}

/// The counter of a piece `d` divisions below a piece at an even level
/// says whether `d` is even; a piece at an odd level must be divided, so
/// every piece left whole lies an even number of divisions below.
pub proof fn lemma_even_depth<P: Producer>(t: Division<EvenLevels<P>>, d: nat)
    requires
        t.as_asked(),
        flips_counter(t),
        t.root().counter == (d % 2 == 0),
    ensures
        t.whole_at_even_depth(d),
    decreases t,
{
    match t {
        Division::Whole(_) => {},
        Division::Halves(_, l, r) => {
            lemma_even_depth(*l, d + 1);
            lemma_even_depth(*r, d + 1);
        },
    }
}

} // verus!
