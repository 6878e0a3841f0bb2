//! Iterates in reverse order.
use vstd::prelude::*;
use crate::traits::{Divisible, Producer};

verus! {

/// `s` from its last element to its first.
pub open spec fn reversed<T>(s: Seq<T>) -> Seq<T> {
    Seq::new(s.len(), |i: int| s[s.len() - 1 - i])
}

/// Reversing a concatenation reverses the order of the parts.
pub proof fn lemma_reversed_concat<T>(a: Seq<T>, b: Seq<T>)
    ensures
        reversed(a + b) == reversed(b) + reversed(a),
{
    assert(reversed(a + b) =~= reversed(b) + reversed(a));
}

/// Reversing twice gives the sequence back: a reversed reversal yields the
/// items in their first order.
pub proof fn lemma_reversed_twice<T>(s: Seq<T>)
    ensures
        reversed(reversed(s)) == s,
{
    assert(reversed(reversed(s)) =~= s);
}

/// Removing the last element removes the first of the reversal, and the
/// other way round.
pub proof fn lemma_reversed_ends<T>(s: Seq<T>)
    requires
        s.len() > 0,
    ensures
        reversed(s)[0] == s.last(),
        reversed(s).last() == s[0],
        reversed(s.drop_last()) == reversed(s).drop_first(),
        reversed(s.drop_first()) == reversed(s).drop_last(),
{
    assert(reversed(s.drop_last()) =~= reversed(s).drop_first());
    assert(reversed(s.drop_first()) =~= reversed(s).drop_last());
}

/// Yields the items of `base` from the last to the first.
pub struct Rev<I> {
    pub base: I,
}

impl<P: Producer> Divisible for Rev<P> {
    type Item = P::Item;

    open spec fn wf(&self) -> bool {
        self.base.wf() && self.base.double_ended()
    }

    open spec fn items(&self) -> Seq<P::Item> {
        reversed(self.base.items())
    }

    open spec fn spec_len(&self) -> nat {
        self.base.spec_len()
    }

    open spec fn splits_items(&self) -> bool {
        self.base.splits_items()
    }

    open spec fn complete(&self) -> bool {
        self.base.complete()
    }

    open spec fn double_ended(&self) -> bool {
        true
    }

    open spec fn can_preview(&self) -> bool {
        self.base.can_preview()
    }

    open spec fn can_divide(&self) -> bool {
        self.base.can_divide()
    }

    /// Cutting at a position counted from the end needs the length.
    open spec fn can_divide_at(&self) -> bool {
        self.base.can_divide_at() && self.base.can_preview() && self.base.exact()
    }

    open spec fn exact(&self) -> bool {
        self.base.exact()
    }

    proof fn lemma_exact(&self) {
        self.base.lemma_exact();
    }

    open spec fn always_divisible(&self) -> bool {
        self.base.always_divisible() && self.base.can_preview() && self.base.exact()
    }

    proof fn lemma_always_divisible(&self) {
        self.base.lemma_always_divisible();
    }

    open spec fn may_divide(&self) -> bool {
        self.base.may_divide()
    }

    open spec fn must_divide(&self) -> bool {
        self.base.must_divide()
    }

    fn should_be_divided(&self) -> (r: bool) {
        self.base.should_be_divided()
    }

    /// The right part of the base comes first.
    fn divide(self) -> (r: (Self, Self)) {
        let (left, right) = self.base.divide();
        proof {
            lemma_reversed_concat(left.items(), right.items());
        }
        (Rev { base: right }, Rev { base: left })
    }

    /// The first `index` items of the reversal are the last `index` items of
    /// the base.
    fn divide_at(self, index: usize) -> (r: (Self, Self)) {
        proof {
            self.base.lemma_exact();
        }
        let position = self.base.length() - index;
        let (left, right) = self.base.divide_at(position);
        proof {
            lemma_reversed_concat(left.items(), right.items());
        }
        (Rev { base: right }, Rev { base: left })
    }
}

impl<P: Producer> Producer for Rev<P> {
    open spec fn spec_sizes(&self) -> (usize, Option<usize>) {
        self.base.spec_sizes()
    }

    fn next(&mut self) -> (r: Option<P::Item>) {
        let r = self.base.next_back();
        proof {
            if r is Some {
                lemma_reversed_ends(old(self).base.items());
            }
        }
        r
    }

    fn next_back(&mut self) -> (r: Option<P::Item>) {
        let r = self.base.next();
        proof {
            if r is Some {
                lemma_reversed_ends(old(self).base.items());
            }
        }
        r
    }

    fn sizes(&self) -> (r: (usize, Option<usize>)) {
        self.base.sizes()
    }

    fn length(&self) -> (r: usize) {
        self.base.length()
    }

    /// The item `index` places from the end of the base.
    fn preview(&self, index: usize) -> (r: P::Item) {
        let n = self.base.length();
        self.base.preview(n - 1 - index)
    }
}

} // verus!
